//! The grammar: what parsing yields, as a function of the tokens that are
//! still to be read.
//!
//! Every function here takes the remaining tokens and gives an [`Outcome`]:
//! the construct that the tokens begin with, or the first error in them, and
//! how far the cursor moves.

use crate::message::{
    expected_closing_text, expected_comma_or_from_text, expected_keyword_text,
    expected_primary_text, expected_semicolon_text, expected_token_text,
};
use crate::remaining::rest_after;
use crate::statement::{
    BinaryOperator, DBType, SpecConstraint, SpecExpression, SpecStatement, SpecTableColumn,
    UnaryOperator,
};
use crate::token::{Keyword, SpecToken};
use vstd::prelude::*;

verus! {

/// The token under the cursor: the end-of-input token once nothing is left.
pub open spec fn first_token(tokens: Seq<SpecToken>) -> SpecToken {
    if tokens.len() > 0 {
        tokens[0]
    } else {
        SpecToken::Eof
    }
}

/// Whether two tokens are of the same kind, whatever they carry.
pub open spec fn same_kind(a: SpecToken, b: SpecToken) -> bool {
    match (a, b) {
        (SpecToken::LeftParentheses, SpecToken::LeftParentheses) => true,
        (SpecToken::RightParentheses, SpecToken::RightParentheses) => true,
        (SpecToken::Comma, SpecToken::Comma) => true,
        (SpecToken::Semicolon, SpecToken::Semicolon) => true,
        (SpecToken::Plus, SpecToken::Plus) => true,
        (SpecToken::Minus, SpecToken::Minus) => true,
        (SpecToken::Star, SpecToken::Star) => true,
        (SpecToken::Divide, SpecToken::Divide) => true,
        (SpecToken::Equal, SpecToken::Equal) => true,
        (SpecToken::NotEqual, SpecToken::NotEqual) => true,
        (SpecToken::GreaterThan, SpecToken::GreaterThan) => true,
        (SpecToken::GreaterThanOrEqual, SpecToken::GreaterThanOrEqual) => true,
        (SpecToken::LessThan, SpecToken::LessThan) => true,
        (SpecToken::LessThanOrEqual, SpecToken::LessThanOrEqual) => true,
        (SpecToken::Number(_), SpecToken::Number(_)) => true,
        (SpecToken::String(_), SpecToken::String(_)) => true,
        (SpecToken::Identifier(_), SpecToken::Identifier(_)) => true,
        (SpecToken::Keyword(_), SpecToken::Keyword(_)) => true,
        (SpecToken::Invalid(_), SpecToken::Invalid(_)) => true,
        (SpecToken::Eof, SpecToken::Eof) => true,
        _ => false,
    }
}

/// What one step of parsing comes to.
pub struct Outcome<T> {
    /// The construct that was read, or the complaint.
    pub result: Result<T, Seq<char>>,
    /// How many times the cursor advanced. At the end of the tokens the
    /// cursor stays where it is, so what is left afterwards is
    /// `rest_after(tokens, consumed)`.
    pub consumed: nat,
}

impl<T> Outcome<T> {
    /// The same outcome, seen from `n` tokens earlier.
    pub open spec fn later(self, n: nat) -> Outcome<T> {
        Outcome { result: self.result, consumed: n + self.consumed }
    }
}

/// Success with `value`, `consumed` tokens on.
pub open spec fn accept<T>(value: T, consumed: nat) -> Outcome<T> {
    Outcome { result: Ok(value), consumed }
}

/// Failure with `message`, `consumed` tokens on.
pub open spec fn reject<T>(message: Seq<char>, consumed: nat) -> Outcome<T> {
    Outcome { result: Err(message), consumed }
}

/// How tightly a binary operator binds: the higher, the tighter.
pub open spec fn precedence(op: BinaryOperator) -> nat {
    match op {
        BinaryOperator::Or => 1,
        BinaryOperator::And => 2,
        BinaryOperator::Equal | BinaryOperator::NotEqual => 3,
        BinaryOperator::GreaterThan
        | BinaryOperator::GreaterThanOrEqual
        | BinaryOperator::LessThan
        | BinaryOperator::LessThanOrEqual => 4,
        BinaryOperator::Plus | BinaryOperator::Minus => 5,
        BinaryOperator::Multiply | BinaryOperator::Divide => 6,
    }
}

/// The binary operator that a token denotes between two operands.
pub open spec fn binary_operator_of(token: SpecToken) -> Option<BinaryOperator> {
    match token {
        SpecToken::Equal => Some(BinaryOperator::Equal),
        SpecToken::NotEqual => Some(BinaryOperator::NotEqual),
        SpecToken::GreaterThan => Some(BinaryOperator::GreaterThan),
        SpecToken::GreaterThanOrEqual => Some(BinaryOperator::GreaterThanOrEqual),
        SpecToken::LessThan => Some(BinaryOperator::LessThan),
        SpecToken::LessThanOrEqual => Some(BinaryOperator::LessThanOrEqual),
        SpecToken::Plus => Some(BinaryOperator::Plus),
        SpecToken::Minus => Some(BinaryOperator::Minus),
        SpecToken::Star => Some(BinaryOperator::Multiply),
        SpecToken::Divide => Some(BinaryOperator::Divide),
        SpecToken::Keyword(Keyword::And) => Some(BinaryOperator::And),
        SpecToken::Keyword(Keyword::Or) => Some(BinaryOperator::Or),
        _ => None,
    }
}

/// `operand` under the unary operator `operator`.
pub open spec fn unary_node(operator: UnaryOperator, operand: SpecExpression) -> SpecExpression {
    SpecExpression::UnaryOperation { operator, operand: Box::new(operand) }
}

/// `left` and `right` joined by `operator`.
pub open spec fn binary_node(
    left: SpecExpression,
    operator: BinaryOperator,
    right: SpecExpression,
) -> SpecExpression {
    SpecExpression::BinaryOperation {
        left_operand: Box::new(left),
        operator,
        right_operand: Box::new(right),
    }
}

/// An operand: an identifier, a literal, `TRUE`, `FALSE`, or a whole
/// expression in parentheses. Its first token is consumed whatever it is.
pub open spec fn primary(tokens: Seq<SpecToken>) -> Outcome<SpecExpression>
    decreases tokens.len(), 0nat,
{
    match first_token(tokens) {
        SpecToken::LeftParentheses => {
            let inner = binary(rest_after(tokens, 1), 0);
            match inner.result {
                Err(message) => reject(message, 1 + inner.consumed),
                Ok(e) => match first_token(rest_after(tokens, 1 + inner.consumed)) {
                    SpecToken::RightParentheses => accept(e, 2 + inner.consumed),
                    other => reject(expected_closing_text(other), 2 + inner.consumed),
                },
            }
        },
        SpecToken::Identifier(name) => accept(SpecExpression::Identifier(name), 1),
        SpecToken::Number(n) => accept(SpecExpression::Number(n), 1),
        SpecToken::String(s) => accept(SpecExpression::String(s), 1),
        SpecToken::Keyword(Keyword::True) => accept(SpecExpression::Bool(true), 1),
        SpecToken::Keyword(Keyword::False) => accept(SpecExpression::Bool(false), 1),
        other => reject(expected_primary_text(other), 1),
    }
}

/// An operand under any number of signs. Each `-` adds a negation; a `+`
/// adds nothing.
pub open spec fn unary(tokens: Seq<SpecToken>) -> Outcome<SpecExpression>
    decreases tokens.len(), 1nat,
{
    match first_token(tokens) {
        SpecToken::Minus => {
            let operand = unary(rest_after(tokens, 1));
            match operand.result {
                Err(message) => reject(message, 1 + operand.consumed),
                Ok(e) => accept(unary_node(UnaryOperator::Minus, e), 1 + operand.consumed),
            }
        },
        SpecToken::Plus => unary(rest_after(tokens, 1)).later(1),
        _ => primary(tokens),
    }
}

/// What follows a left operand: as long as the next token is a binary
/// operator that binds at least as tightly as `min_prec`, a right operand
/// of operators that bind more tightly than it, joined to what stands to
/// the left.
pub open spec fn binary_tail(
    tokens: Seq<SpecToken>,
    min_prec: nat,
    left: SpecExpression,
) -> Outcome<SpecExpression>
    decreases tokens.len(), 2nat,
{
    match binary_operator_of(first_token(tokens)) {
        None => accept(left, 0),
        Some(op) => if precedence(op) < min_prec {
            accept(left, 0)
        } else {
            let right = binary(rest_after(tokens, 1), precedence(op) + 1);
            match right.result {
                Err(message) => reject(message, 1 + right.consumed),
                Ok(r) => binary_tail(
                    rest_after(tokens, 1 + right.consumed),
                    min_prec,
                    binary_node(left, op, r),
                ).later(1 + right.consumed),
            }
        },
    }
}

/// An expression whose operators outside parentheses all bind at least as
/// tightly as `min_prec`.
pub open spec fn binary(tokens: Seq<SpecToken>, min_prec: nat) -> Outcome<SpecExpression>
    decreases tokens.len(), 3nat,
{
    let left = unary(tokens);
    match left.result {
        Err(message) => reject(message, left.consumed),
        Ok(e) => binary_tail(rest_after(tokens, left.consumed), min_prec, e).later(left.consumed),
    }
}

/// A whole expression: one whose operators may bind as loosely as any.
#[verifier::opaque]
pub open spec fn expression(tokens: Seq<SpecToken>) -> Outcome<SpecExpression> {
    binary(tokens, 0)
}

/// The keyword `keyword`, and nothing in its place.
pub open spec fn expect_keyword(tokens: Seq<SpecToken>, keyword: Keyword) -> Outcome<()> {
    if first_token(tokens) == SpecToken::Keyword(keyword) {
        accept((), 1)
    } else {
        reject(expected_keyword_text(keyword, first_token(tokens)), 0)
    }
}

/// The token `expected`, kind and content, and nothing in its place.
pub open spec fn expect_token(tokens: Seq<SpecToken>, expected: SpecToken) -> Outcome<()> {
    if first_token(tokens) == expected {
        accept((), 1)
    } else {
        reject(expected_token_text(expected, first_token(tokens)), 0)
    }
}

/// The `;` that ends a statement.
pub open spec fn expect_semicolon(tokens: Seq<SpecToken>) -> Outcome<()> {
    if first_token(tokens) == SpecToken::Semicolon {
        accept((), 1)
    } else {
        reject(expected_semicolon_text(first_token(tokens)), 0)
    }
}

/// A name: one identifier. Any other token is consumed and answered with
/// `complaint`.
pub open spec fn name(tokens: Seq<SpecToken>, complaint: Seq<char>) -> Outcome<Seq<char>> {
    match first_token(tokens) {
        SpecToken::Identifier(n) => accept(n, 1),
        _ => reject(complaint, 1),
    }
}

/// The columns of a `SELECT`, up to but not including `FROM`, added to the
/// `columns` read before: `*` or an expression, then a separator.
#[verifier::opaque]
pub open spec fn select_list(tokens: Seq<SpecToken>, columns: Seq<SpecExpression>) -> Outcome<
    Seq<SpecExpression>,
>
    decreases tokens.len(), 1nat,
{
    match first_token(tokens) {
        SpecToken::Star => select_separator(
            rest_after(tokens, 1),
            columns.push(SpecExpression::AllColumns),
        ).later(1),
        SpecToken::Keyword(Keyword::From) => if columns.len() == 0 {
            reject("Expected at least one column before FROM"@, 0)
        } else {
            accept(columns, 0)
        },
        _ => {
            let column = expression(tokens);
            match column.result {
                Err(message) => reject(message, column.consumed),
                Ok(e) => select_separator(
                    rest_after(tokens, column.consumed),
                    columns.push(e),
                ).later(column.consumed),
            }
        },
    }
}

/// What follows a column of a `SELECT`: a comma and more columns, or
/// `FROM`, which is left unread. A comma right before `FROM` is an error.
#[verifier::opaque]
pub open spec fn select_separator(
    tokens: Seq<SpecToken>,
    columns: Seq<SpecExpression>,
) -> Outcome<Seq<SpecExpression>>
    decreases tokens.len(), 0nat,
{
    match first_token(tokens) {
        SpecToken::Comma => if first_token(rest_after(tokens, 1)) == SpecToken::Keyword(
            Keyword::From,
        ) {
            reject("Trailing comma before FROM is not allowed"@, 1)
        } else {
            select_list(rest_after(tokens, 1), columns).later(1)
        },
        SpecToken::Keyword(Keyword::From) => accept(columns, 0),
        other => reject(expected_comma_or_from_text(other), 0),
    }
}

/// The optional `WHERE` clause.
#[verifier::opaque]
pub open spec fn where_clause(tokens: Seq<SpecToken>) -> Outcome<Option<SpecExpression>> {
    if first_token(tokens) == SpecToken::Keyword(Keyword::Where) {
        let condition = expression(rest_after(tokens, 1));
        match condition.result {
            Err(message) => reject(message, 1 + condition.consumed),
            Ok(e) => accept(Some(e), 1 + condition.consumed),
        }
    } else {
        accept(None, 0)
    }
}

/// A sort term with its direction: under an `Asc` or `Desc` marker where
/// `ASC` or `DESC` follows it, and else as it is.
pub open spec fn with_direction(term: SpecExpression, next: SpecToken) -> SpecExpression {
    match next {
        SpecToken::Keyword(Keyword::Asc) => unary_node(UnaryOperator::Asc, term),
        SpecToken::Keyword(Keyword::Desc) => unary_node(UnaryOperator::Desc, term),
        _ => term,
    }
}

/// Whether a token gives a sort direction.
pub open spec fn is_direction(token: SpecToken) -> bool {
    token == SpecToken::Keyword(Keyword::Asc) || token == SpecToken::Keyword(Keyword::Desc)
}

/// The sort terms after `ORDER BY`, separated by commas, added to the
/// `terms` read before.
#[verifier::opaque]
pub open spec fn order_terms(tokens: Seq<SpecToken>, terms: Seq<SpecExpression>) -> Outcome<
    Seq<SpecExpression>,
>
    decreases tokens.len(),
{
    let term = expression(tokens);
    match term.result {
        Err(message) => reject(message, term.consumed),
        Ok(e) => {
            let next = first_token(rest_after(tokens, term.consumed));
            let n = if is_direction(next) {
                term.consumed + 1
            } else {
                term.consumed
            };
            let terms = terms.push(with_direction(e, next));
            if first_token(rest_after(tokens, n)) == SpecToken::Comma {
                order_terms(rest_after(tokens, n + 1), terms).later(n + 1)
            } else {
                accept(terms, n)
            }
        },
    }
}

/// The optional `ORDER BY` clause.
#[verifier::opaque]
pub open spec fn order_by(tokens: Seq<SpecToken>) -> Outcome<Seq<SpecExpression>> {
    if first_token(tokens) == SpecToken::Keyword(Keyword::Order) {
        let by = expect_keyword(rest_after(tokens, 1), Keyword::By);
        match by.result {
            Err(message) => reject(message, 1),
            Ok(_) => order_terms(rest_after(tokens, 2), Seq::empty()).later(2),
        }
    } else {
        accept(Seq::empty(), 0)
    }
}

/// A `SELECT` statement: `SELECT` columns `FROM` table, then an optional
/// `WHERE` condition, an optional `ORDER BY` list, and `;`. The error is
/// that of the first part that fails.
pub open spec fn select_statement(tokens: Seq<SpecToken>) -> Outcome<SpecStatement> {
    let select = expect_keyword(tokens, Keyword::Select);
    let columns = select_list(rest_after(tokens, select.consumed), Seq::empty()).later(
        select.consumed,
    );
    let from = expect_keyword(rest_after(tokens, columns.consumed), Keyword::From).later(
        columns.consumed,
    );
    let table = name(rest_after(tokens, from.consumed), "Expected table name after FROM"@).later(
        from.consumed,
    );
    let condition = where_clause(rest_after(tokens, table.consumed)).later(table.consumed);
    let order = order_by(rest_after(tokens, condition.consumed)).later(condition.consumed);
    let end = expect_semicolon(rest_after(tokens, order.consumed)).later(order.consumed);
    if select.result is Err {
        reject(select.result->Err_0, select.consumed)
    } else if columns.result is Err {
        reject(columns.result->Err_0, columns.consumed)
    } else if from.result is Err {
        reject(from.result->Err_0, from.consumed)
    } else if table.result is Err {
        reject(table.result->Err_0, table.consumed)
    } else if condition.result is Err {
        reject(condition.result->Err_0, condition.consumed)
    } else if order.result is Err {
        reject(order.result->Err_0, order.consumed)
    } else if end.result is Err {
        reject(end.result->Err_0, end.consumed)
    } else {
        accept(
            SpecStatement::Select {
                columns: columns.result->Ok_0,
                from: table.result->Ok_0,
                where_clause: condition.result->Ok_0,
                orderby: order.result->Ok_0,
            },
            end.consumed,
        )
    }
}

/// The type of a column: `INT`, `BOOL`, or `VARCHAR` with an optional
/// length in parentheses, 255 where none is given. The first token is
/// consumed whatever it is.
#[verifier::opaque]
pub open spec fn column_type(tokens: Seq<SpecToken>) -> Outcome<DBType> {
    match first_token(tokens) {
        SpecToken::Keyword(Keyword::Int) => accept(DBType::Int, 1),
        SpecToken::Keyword(Keyword::Bool) => accept(DBType::Bool, 1),
        SpecToken::Keyword(Keyword::Varchar) => if first_token(rest_after(tokens, 1))
            == SpecToken::LeftParentheses {
            match first_token(rest_after(tokens, 2)) {
                SpecToken::Number(n) => {
                    let close = expect_token(rest_after(tokens, 3), SpecToken::RightParentheses);
                    match close.result {
                        Err(message) => reject(message, 3),
                        Ok(_) => accept(DBType::Varchar(n as usize), 4),
                    }
                },
                _ => reject("Expected number in VARCHAR(n)"@, 3),
            }
        } else {
            accept(DBType::Varchar(255), 1)
        },
        _ => reject("Expected column type (INT, BOOL, VARCHAR)"@, 1),
    }
}

/// The constraints of a column, in any order and number, added to the
/// `constraints` read before: `NOT NULL`, `PRIMARY KEY`, and `CHECK` with a
/// condition in parentheses. The first token that begins none of them ends
/// the list and is left unread.
#[verifier::opaque]
pub open spec fn constraint_list(
    tokens: Seq<SpecToken>,
    constraints: Seq<SpecConstraint>,
) -> Outcome<Seq<SpecConstraint>>
    decreases tokens.len(),
{
    match first_token(tokens) {
        SpecToken::Keyword(Keyword::Not) => {
            let null = expect_keyword(rest_after(tokens, 1), Keyword::Null);
            match null.result {
                Err(message) => reject(message, 1),
                Ok(_) => constraint_list(
                    rest_after(tokens, 2),
                    constraints.push(SpecConstraint::NotNull),
                ).later(2),
            }
        },
        SpecToken::Keyword(Keyword::Primary) => {
            let key = expect_keyword(rest_after(tokens, 1), Keyword::Key);
            match key.result {
                Err(message) => reject(message, 1),
                Ok(_) => constraint_list(
                    rest_after(tokens, 2),
                    constraints.push(SpecConstraint::PrimaryKey),
                ).later(2),
            }
        },
        SpecToken::Keyword(Keyword::Check) => {
            let open = expect_token(rest_after(tokens, 1), SpecToken::LeftParentheses);
            let condition = expression(rest_after(tokens, 2));
            let close = expect_token(
                rest_after(tokens, 2 + condition.consumed),
                SpecToken::RightParentheses,
            );
            if open.result is Err {
                reject(open.result->Err_0, 1)
            } else if condition.result is Err {
                reject(condition.result->Err_0, 2 + condition.consumed)
            } else if close.result is Err {
                reject(close.result->Err_0, 2 + condition.consumed)
            } else {
                constraint_list(
                    rest_after(tokens, 3 + condition.consumed),
                    constraints.push(SpecConstraint::Check(condition.result->Ok_0)),
                ).later(3 + condition.consumed)
            }
        },
        _ => accept(constraints, 0),
    }
}

/// One column definition: a name, a type, and constraints.
#[verifier::opaque]
pub open spec fn column_definition(tokens: Seq<SpecToken>) -> Outcome<SpecTableColumn> {
    let column_name = name(tokens, "Expected column name"@);
    let ty = column_type(rest_after(tokens, column_name.consumed)).later(column_name.consumed);
    let constraints = constraint_list(rest_after(tokens, ty.consumed), Seq::empty()).later(
        ty.consumed,
    );
    if column_name.result is Err {
        reject(column_name.result->Err_0, column_name.consumed)
    } else if ty.result is Err {
        reject(ty.result->Err_0, ty.consumed)
    } else if constraints.result is Err {
        reject(constraints.result->Err_0, constraints.consumed)
    } else {
        accept(
            SpecTableColumn {
                column_name: column_name.result->Ok_0,
                column_type: ty.result->Ok_0,
                constraints: constraints.result->Ok_0,
            },
            constraints.consumed,
        )
    }
}

/// The column definitions of a `CREATE TABLE` after the opening
/// parenthesis, added to the `columns` read before. Each definition is
/// followed by a comma or by the closing parenthesis, which ends the list
/// and is consumed. A closing parenthesis where a definition should begin
/// ends the list too, but is left unread.
#[verifier::opaque]
pub open spec fn column_definitions(
    tokens: Seq<SpecToken>,
    columns: Seq<SpecTableColumn>,
) -> Outcome<Seq<SpecTableColumn>>
    decreases tokens.len(),
{
    if first_token(tokens) == SpecToken::RightParentheses {
        accept(columns, 0)
    } else {
        let column = column_definition(tokens);
        match column.result {
            Err(message) => reject(message, column.consumed),
            Ok(c) => match first_token(rest_after(tokens, column.consumed)) {
                SpecToken::Comma => column_definitions(
                    rest_after(tokens, column.consumed + 1),
                    columns.push(c),
                ).later(column.consumed + 1),
                SpecToken::RightParentheses => accept(columns.push(c), column.consumed + 1),
                _ => reject("Expected ',' or ')' in column definition list"@, column.consumed),
            },
        }
    }
}

/// A `CREATE TABLE` statement: `CREATE TABLE` name `(` column definitions
/// `)` `;`. The error is that of the first part that fails.
pub open spec fn create_statement(tokens: Seq<SpecToken>) -> Outcome<SpecStatement> {
    let create = expect_keyword(tokens, Keyword::Create);
    let table = expect_keyword(rest_after(tokens, create.consumed), Keyword::Table).later(
        create.consumed,
    );
    let table_name = name(
        rest_after(tokens, table.consumed),
        "Expected table name after CREATE TABLE"@,
    ).later(table.consumed);
    let open = expect_token(
        rest_after(tokens, table_name.consumed),
        SpecToken::LeftParentheses,
    ).later(table_name.consumed);
    let columns = column_definitions(rest_after(tokens, open.consumed), Seq::empty()).later(
        open.consumed,
    );
    let end = expect_semicolon(rest_after(tokens, columns.consumed)).later(columns.consumed);
    if create.result is Err {
        reject(create.result->Err_0, create.consumed)
    } else if table.result is Err {
        reject(table.result->Err_0, table.consumed)
    } else if table_name.result is Err {
        reject(table_name.result->Err_0, table_name.consumed)
    } else if open.result is Err {
        reject(open.result->Err_0, open.consumed)
    } else if columns.result is Err {
        reject(columns.result->Err_0, columns.consumed)
    } else if end.result is Err {
        reject(end.result->Err_0, end.consumed)
    } else {
        accept(
            SpecStatement::CreateTable {
                table_name: table_name.result->Ok_0,
                column_list: columns.result->Ok_0,
            },
            end.consumed,
        )
    }
}

/// A statement: a `SELECT` or a `CREATE TABLE`, told apart by the first
/// token.
pub open spec fn statement(tokens: Seq<SpecToken>) -> Outcome<SpecStatement> {
    match first_token(tokens) {
        SpecToken::Keyword(Keyword::Select) => select_statement(tokens),
        SpecToken::Keyword(Keyword::Create) => create_statement(tokens),
        _ => reject("Expected SELECT or CREATE statement"@, 0),
    }
}

} // verus!
