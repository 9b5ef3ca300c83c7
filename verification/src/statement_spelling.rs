//! Writing a statement out as tokens, and the proof that reading the
//! tokens gives the statement back.

use crate::grammar::{
    accept, binary_operator_of, column_definition, column_definitions, column_type,
    constraint_list, create_statement, expression, first_token, is_direction, order_by,
    order_terms, select_list, select_separator, select_statement, statement, where_clause,
    with_direction,
};
use crate::remaining::{lemma_rest_after_twice, rest_after};
use crate::source::{are_writable, lemma_source_is_read, source};
use crate::spelling::{
    is_plain, lemma_after_head, lemma_expression_is_plain, lemma_expression_reads_spelling,
    lemma_spelling_starts_operand, spelling,
};
use crate::statement_laws::lemma_statement_has_a_column;
use crate::statement::{
    DBType, SpecConstraint, SpecExpression, SpecStatement, SpecTableColumn, UnaryOperator,
};
use crate::token::{Keyword, SpecToken};
use crate::tokenizer::lex;
use vstd::prelude::*;

verus! {

/// Whether a tree can stand as a column of a `SELECT`: the wildcard, or a
/// plain expression.
pub open spec fn is_column(e: SpecExpression) -> bool {
    e is AllColumns || is_plain(e)
}

/// Whether each of `columns` can stand as a column of a `SELECT`.
pub open spec fn are_columns(columns: Seq<SpecExpression>) -> bool {
    forall|i: int| 0 <= i < columns.len() ==> is_column(#[trigger] columns[i])
}

/// The columns of a `SELECT`, spelled with commas between them.
pub open spec fn list_spelling(columns: Seq<SpecExpression>) -> Seq<SpecToken>
    decreases columns.len(),
{
    if columns.len() == 0 {
        Seq::empty()
    } else if columns.len() == 1 {
        spelling(columns[0])
    } else {
        spelling(columns[0]) + (seq![SpecToken::Comma] + list_spelling(columns.skip(1)))
    }
}

/// A column's spelling is not empty and begins with neither `FROM` nor a
/// comma, and only the wildcard's begins with `*`.
pub proof fn lemma_column_starts(e: SpecExpression)
    requires
        is_column(e),
    ensures
        spelling(e).len() >= 1,
        spelling(e)[0] != SpecToken::Keyword(Keyword::From),
        spelling(e)[0] == SpecToken::Star <==> e is AllColumns,
{
    if !(e is AllColumns) {
        lemma_spelling_starts_operand(e);
    }
}

/// Reading columns as they are spelled, up to `FROM`, gives the columns.
pub proof fn lemma_select_list_reads_spelling(
    columns: Seq<SpecExpression>,
    before: Seq<SpecExpression>,
    rest: Seq<SpecToken>,
)
    requires
        columns.len() >= 1,
        are_columns(columns),
        first_token(rest) == SpecToken::Keyword(Keyword::From),
    ensures
        select_list(list_spelling(columns) + rest, before) == accept(
            before + columns,
            list_spelling(columns).len(),
        ),
    decreases columns.len(),
{
    reveal(select_list);
    reveal(select_separator);
    let tokens = list_spelling(columns) + rest;
    let c = columns[0];
    let first = spelling(c);
    let others = columns.skip(1);
    // What follows the first column: `FROM`, or a comma and more columns.
    let after = if columns.len() == 1 {
        rest
    } else {
        seq![SpecToken::Comma] + (list_spelling(others) + rest)
    };
    assert(tokens =~= first + after);
    lemma_column_starts(c);
    lemma_after_head(first, after);
    if columns.len() > 1 {
        lemma_after_head(seq![SpecToken::Comma], list_spelling(others) + rest);
        assert(seq![SpecToken::Comma].skip(1) + (list_spelling(others) + rest) =~= list_spelling(
            others,
        ) + rest);
    }
    // The first column is read.
    if c is AllColumns {
        assert(first =~= seq![SpecToken::Star]);
    } else {
        assert(binary_operator_of(first_token(after)) is None);
        lemma_expression_reads_spelling(c, after);
    }
    assert(select_list(tokens, before) == select_separator(after, before.push(c)).later(
        first.len(),
    ));
    // Then what follows it.
    if columns.len() == 1 {
        assert(before + columns =~= before.push(c));
    } else {
        assert(are_columns(others)) by {
            assert forall|i: int| 0 <= i < others.len() implies is_column(#[trigger] others[i]) by {
                assert(others[i] == columns[i + 1]);
            }
        }
        lemma_column_starts(others[0]);
        let next = list_spelling(others) + rest;
        assert(next[0] == spelling(others[0])[0]);
        lemma_select_list_reads_spelling(others, before.push(c), rest);
        assert(before.push(c) + others =~= before + columns);
    }
}

/// The `WHERE` clause, spelled: nothing where there is no condition.
pub open spec fn where_spelling(condition: Option<SpecExpression>) -> Seq<SpecToken> {
    match condition {
        Some(e) => seq![SpecToken::Keyword(Keyword::Where)] + spelling(e),
        None => Seq::empty(),
    }
}

/// Reading a `WHERE` clause as it is spelled gives the condition.
pub proof fn lemma_where_clause_reads_spelling(
    condition: Option<SpecExpression>,
    rest: Seq<SpecToken>,
)
    requires
        condition matches Some(e) ==> is_plain(e),
        binary_operator_of(first_token(rest)) is None,
        first_token(rest) != SpecToken::Keyword(Keyword::Where),
    ensures
        where_clause(where_spelling(condition) + rest) == accept(
            condition,
            where_spelling(condition).len(),
        ),
{
    reveal(where_clause);
    let tokens = where_spelling(condition) + rest;
    match condition {
        Some(e) => {
            let keyword = seq![SpecToken::Keyword(Keyword::Where)];
            assert(tokens =~= keyword + (spelling(e) + rest));
            lemma_after_head(keyword, spelling(e) + rest);
            assert(keyword.skip(1) + (spelling(e) + rest) =~= spelling(e) + rest);
            lemma_expression_reads_spelling(e, rest);
        },
        None => {
            assert(tokens =~= rest);
        },
    }
}

/// Whether a tree can stand as a sort term: a plain expression, alone or
/// under a direction marker.
pub open spec fn is_term(t: SpecExpression) -> bool {
    ||| is_plain(t)
    ||| t matches SpecExpression::UnaryOperation { operator, operand } && operator
        != UnaryOperator::Minus && is_plain(*operand)
}

/// Whether each of `terms` can stand as a sort term.
pub open spec fn are_terms(terms: Seq<SpecExpression>) -> bool {
    forall|i: int| 0 <= i < terms.len() ==> is_term(#[trigger] terms[i])
}

/// A sort term, spelled: the expression, then its direction if it has one.
pub open spec fn term_spelling(t: SpecExpression) -> Seq<SpecToken> {
    match t {
        SpecExpression::UnaryOperation { operator: UnaryOperator::Asc, operand } => spelling(
            *operand,
        ) + seq![SpecToken::Keyword(Keyword::Asc)],
        SpecExpression::UnaryOperation { operator: UnaryOperator::Desc, operand } => spelling(
            *operand,
        ) + seq![SpecToken::Keyword(Keyword::Desc)],
        _ => spelling(t),
    }
}

/// Sort terms, spelled with commas between them.
pub open spec fn terms_spelling(terms: Seq<SpecExpression>) -> Seq<SpecToken>
    decreases terms.len(),
{
    if terms.len() == 0 {
        Seq::empty()
    } else if terms.len() == 1 {
        term_spelling(terms[0])
    } else {
        term_spelling(terms[0]) + (seq![SpecToken::Comma] + terms_spelling(terms.skip(1)))
    }
}

/// Whether a list of sort terms may end before `token`: it is no comma, no
/// direction and no binary operator.
pub open spec fn ends_terms(token: SpecToken) -> bool {
    &&& token != SpecToken::Comma
    &&& !is_direction(token)
    &&& binary_operator_of(token) is None
}

/// Reading one sort term as it is spelled gives the term.
pub proof fn lemma_term_reads_spelling(t: SpecExpression, rest: Seq<SpecToken>)
    requires
        is_term(t),
        !is_direction(first_token(rest)),
        binary_operator_of(first_token(rest)) is None,
    ensures
        ({
            let tokens = term_spelling(t) + rest;
            let term = expression(tokens);
            let next = first_token(rest_after(tokens, term.consumed));
            &&& term.result matches Ok(e) && with_direction(e, next) == t
            &&& term_spelling(t).len() == if is_direction(next) {
                term.consumed + 1
            } else {
                term.consumed
            }
        }),
{
    let tokens = term_spelling(t) + rest;
    match t {
        SpecExpression::UnaryOperation { operator: UnaryOperator::Asc, operand } => {
            let direction = seq![SpecToken::Keyword(Keyword::Asc)];
            assert(tokens =~= spelling(*operand) + (direction + rest));
            lemma_after_head(direction, rest);
            lemma_expression_reads_spelling(*operand, direction + rest);
            lemma_after_head(spelling(*operand), direction + rest);
        },
        SpecExpression::UnaryOperation { operator: UnaryOperator::Desc, operand } => {
            let direction = seq![SpecToken::Keyword(Keyword::Desc)];
            assert(tokens =~= spelling(*operand) + (direction + rest));
            lemma_after_head(direction, rest);
            lemma_expression_reads_spelling(*operand, direction + rest);
            lemma_after_head(spelling(*operand), direction + rest);
        },
        _ => {
            lemma_expression_reads_spelling(t, rest);
            lemma_after_head(spelling(t), rest);
        },
    }
}

/// Reading sort terms as they are spelled gives the terms.
pub proof fn lemma_order_terms_reads_spelling(
    terms: Seq<SpecExpression>,
    before: Seq<SpecExpression>,
    rest: Seq<SpecToken>,
)
    requires
        terms.len() >= 1,
        are_terms(terms),
        ends_terms(first_token(rest)),
    ensures
        order_terms(terms_spelling(terms) + rest, before) == accept(
            before + terms,
            terms_spelling(terms).len(),
        ),
    decreases terms.len(),
{
    reveal(order_terms);
    let tokens = terms_spelling(terms) + rest;
    let t = terms[0];
    let first = term_spelling(t);
    let others = terms.skip(1);
    let after = if terms.len() == 1 {
        rest
    } else {
        seq![SpecToken::Comma] + (terms_spelling(others) + rest)
    };
    assert(tokens =~= first + after);
    if terms.len() > 1 {
        lemma_after_head(seq![SpecToken::Comma], terms_spelling(others) + rest);
        assert(seq![SpecToken::Comma].skip(1) + (terms_spelling(others) + rest)
            =~= terms_spelling(others) + rest);
    }
    lemma_term_reads_spelling(t, after);
    lemma_after_head(first, after);
    if terms.len() == 1 {
        assert(before + terms =~= before.push(t));
    } else {
        assert(are_terms(others)) by {
            assert forall|i: int| 0 <= i < others.len() implies is_term(#[trigger] others[i]) by {
                assert(others[i] == terms[i + 1]);
            }
        }
        lemma_rest_after_twice(tokens, first.len(), 1);
        lemma_order_terms_reads_spelling(others, before.push(t), rest);
        assert(before.push(t) + others =~= before + terms);
    }
}

/// The `ORDER BY` clause, spelled: nothing where there are no terms.
pub open spec fn order_spelling(terms: Seq<SpecExpression>) -> Seq<SpecToken> {
    if terms.len() == 0 {
        Seq::empty()
    } else {
        seq![SpecToken::Keyword(Keyword::Order), SpecToken::Keyword(Keyword::By)] + terms_spelling(
            terms,
        )
    }
}

/// Reading an `ORDER BY` clause as it is spelled gives the terms.
pub proof fn lemma_order_by_reads_spelling(terms: Seq<SpecExpression>, rest: Seq<SpecToken>)
    requires
        are_terms(terms),
        ends_terms(first_token(rest)),
        first_token(rest) != SpecToken::Keyword(Keyword::Order),
    ensures
        order_by(order_spelling(terms) + rest) == accept(terms, order_spelling(terms).len()),
{
    reveal(order_by);
    let tokens = order_spelling(terms) + rest;
    if terms.len() == 0 {
        assert(tokens =~= rest);
        assert(terms =~= Seq::empty());
    } else {
        let keywords = seq![SpecToken::Keyword(Keyword::Order), SpecToken::Keyword(Keyword::By)];
        let after = terms_spelling(terms) + rest;
        assert(tokens =~= keywords + after);
        lemma_after_head(keywords, after);
        assert(rest_after(tokens, 1)[0] == SpecToken::Keyword(Keyword::By));
        lemma_order_terms_reads_spelling(terms, Seq::empty(), rest);
        assert(Seq::<SpecExpression>::empty() + terms =~= terms);
    }
}

/// Whether the parts of a `SELECT` statement can be spelled: there is a
/// column, each column is the wildcard or a plain expression, the
/// condition is a plain expression, and each sort term is a plain
/// expression with or without a direction.
pub open spec fn is_select(
    columns: Seq<SpecExpression>,
    condition: Option<SpecExpression>,
    terms: Seq<SpecExpression>,
) -> bool {
    &&& columns.len() >= 1
    &&& are_columns(columns)
    &&& condition matches Some(e) ==> is_plain(e)
    &&& are_terms(terms)
}

/// A `SELECT` statement, spelled.
pub open spec fn select_spelling(
    columns: Seq<SpecExpression>,
    from: Seq<char>,
    condition: Option<SpecExpression>,
    terms: Seq<SpecExpression>,
) -> Seq<SpecToken> {
    seq![SpecToken::Keyword(Keyword::Select)] + list_spelling(columns) + seq![
        SpecToken::Keyword(Keyword::From),
        SpecToken::Identifier(from),
    ] + where_spelling(condition) + order_spelling(terms) + seq![SpecToken::Semicolon]
}

/// A `SELECT` statement is read where its parts stand one after another.
proof fn lemma_select_in_parts(
    tokens: Seq<SpecToken>,
    columns: Seq<SpecExpression>,
    from: Seq<char>,
    condition: Option<SpecExpression>,
    terms: Seq<SpecExpression>,
    b: nat,
    e: nat,
    f: nat,
)
    requires
        1 <= b,
        b + 2 <= e <= f,
        first_token(tokens) == SpecToken::Keyword(Keyword::Select),
        select_list(rest_after(tokens, 1), Seq::empty()) == accept(columns, (b - 1) as nat),
        first_token(rest_after(tokens, b)) == SpecToken::Keyword(Keyword::From),
        first_token(rest_after(tokens, b + 1)) == SpecToken::Identifier(from),
        where_clause(rest_after(tokens, b + 2)) == accept(condition, (e - (b + 2)) as nat),
        order_by(rest_after(tokens, e)) == accept(terms, (f - e) as nat),
        first_token(rest_after(tokens, f)) == SpecToken::Semicolon,
    ensures
        select_statement(tokens) == accept(
            SpecStatement::Select { columns, from, where_clause: condition, orderby: terms },
            f + 1,
        ),
{
}

/// What is left to read of a spelled `SELECT` statement after its columns.
pub open spec fn after_columns(
    from: Seq<char>,
    filter: Seq<SpecToken>,
    order: Seq<SpecToken>,
    rest: Seq<SpecToken>,
) -> Seq<SpecToken> {
    seq![SpecToken::Keyword(Keyword::From), SpecToken::Identifier(from)] + after_table(
        filter,
        order,
        rest,
    )
}

/// What is left to read of a spelled `SELECT` statement after the table.
pub open spec fn after_table(
    filter: Seq<SpecToken>,
    order: Seq<SpecToken>,
    rest: Seq<SpecToken>,
) -> Seq<SpecToken> {
    filter + after_condition(order, rest)
}

/// What is left to read of a spelled `SELECT` statement after the
/// condition.
pub open spec fn after_condition(order: Seq<SpecToken>, rest: Seq<SpecToken>) -> Seq<SpecToken> {
    order + (seq![SpecToken::Semicolon] + rest)
}

/// A `SELECT` statement is read where its parts, each read when it stands
/// before what follows it, are put together.
proof fn lemma_select_assembled(
    columns: Seq<SpecExpression>,
    from: Seq<char>,
    condition: Option<SpecExpression>,
    terms: Seq<SpecExpression>,
    list: Seq<SpecToken>,
    filter: Seq<SpecToken>,
    order: Seq<SpecToken>,
    rest: Seq<SpecToken>,
)
    requires
        select_list(list + after_columns(from, filter, order, rest), Seq::empty()) == accept(
            columns,
            list.len(),
        ),
        where_clause(after_table(filter, order, rest)) == accept(condition, filter.len()),
        order_by(after_condition(order, rest)) == accept(terms, order.len()),
    ensures
        select_statement(
            seq![SpecToken::Keyword(Keyword::Select)] + list + seq![
                SpecToken::Keyword(Keyword::From),
                SpecToken::Identifier(from),
            ] + filter + order + seq![SpecToken::Semicolon] + rest,
        ) == accept(
            SpecStatement::Select { columns, from, where_clause: condition, orderby: terms },
            list.len() + filter.len() + order.len() + 4,
        ),
{
    let select = seq![SpecToken::Keyword(Keyword::Select)];
    let table = seq![SpecToken::Keyword(Keyword::From), SpecToken::Identifier(from)];
    let end = seq![SpecToken::Semicolon];
    let tokens = select + list + table + filter + order + end + rest;
    let after_order = end + rest;
    let after_filter = after_condition(order, rest);
    let after_name = after_table(filter, order, rest);
    let after_list = after_columns(from, filter, order, rest);
    let after_select = list + after_list;
    assert(tokens =~= select + after_select);
    let b = 1 + list.len();
    let e = b + 2 + filter.len();
    let f = e + order.len();
    assert(rest_after(tokens, 1) == after_select && first_token(tokens) == SpecToken::Keyword(
        Keyword::Select,
    )) by {
        lemma_after_head(select, after_select);
    }
    assert(rest_after(tokens, b) == after_list) by {
        lemma_after_head(list, after_list);
        lemma_rest_after_twice(tokens, 1, list.len());
    }
    let from_name = seq![SpecToken::Identifier(from)] + after_name;
    assert(rest_after(tokens, b + 1) == from_name && first_token(after_list)
        == SpecToken::Keyword(Keyword::From)) by {
        lemma_after_head(table, after_name);
        assert(table.skip(1) =~= seq![SpecToken::Identifier(from)]);
        lemma_rest_after_twice(tokens, b, 1);
    }
    assert(rest_after(tokens, b + 2) == after_name && first_token(from_name)
        == SpecToken::Identifier(from)) by {
        lemma_after_head(seq![SpecToken::Identifier(from)], after_name);
        lemma_rest_after_twice(tokens, b + 1, 1);
    }
    assert(rest_after(tokens, e) == after_filter) by {
        lemma_after_head(filter, after_filter);
        lemma_rest_after_twice(tokens, b + 2, filter.len());
    }
    assert(rest_after(tokens, f) == after_order) by {
        lemma_after_head(order, after_order);
        lemma_rest_after_twice(tokens, e, order.len());
    }
    assert(first_token(after_order) == SpecToken::Semicolon) by {
        lemma_after_head(end, rest);
    }
    lemma_select_in_parts(tokens, columns, from, condition, terms, b, e, f);
}

/// Reading a `SELECT` statement as it is spelled gives the statement,
/// whatever follows it.
pub proof fn lemma_select_reads_spelling(
    columns: Seq<SpecExpression>,
    from: Seq<char>,
    condition: Option<SpecExpression>,
    terms: Seq<SpecExpression>,
    rest: Seq<SpecToken>,
)
    requires
        is_select(columns, condition, terms),
    ensures
        select_statement(select_spelling(columns, from, condition, terms) + rest) == accept(
            SpecStatement::Select { columns, from, where_clause: condition, orderby: terms },
            select_spelling(columns, from, condition, terms).len(),
        ),
{
    let list = list_spelling(columns);
    let filter = where_spelling(condition);
    let order = order_spelling(terms);
    let end = seq![SpecToken::Semicolon] + rest;
    let after_filter = after_condition(order, rest);
    let after_list = after_columns(from, filter, order, rest);
    assert(first_token(end) == SpecToken::Semicolon) by {
        lemma_after_head(seq![SpecToken::Semicolon], rest);
    }
    assert(first_token(after_filter) == SpecToken::Semicolon || first_token(after_filter)
        == SpecToken::Keyword(Keyword::Order)) by {
        if terms.len() == 0 {
            assert(after_filter =~= end);
        } else {
            lemma_after_head(order, end);
        }
    }
    assert(first_token(after_list) == SpecToken::Keyword(Keyword::From)) by {
        lemma_after_head(
            seq![SpecToken::Keyword(Keyword::From), SpecToken::Identifier(from)],
            after_table(filter, order, rest),
        );
    }
    assert(select_list(list + after_list, Seq::empty()) == accept(columns, list.len())) by {
        lemma_select_list_reads_spelling(columns, Seq::empty(), after_list);
        assert(Seq::<SpecExpression>::empty() + columns =~= columns);
    }
    assert(where_clause(after_table(filter, order, rest)) == accept(condition, filter.len())) by {
        lemma_where_clause_reads_spelling(condition, after_filter);
    }
    assert(order_by(after_filter) == accept(terms, order.len())) by {
        lemma_order_by_reads_spelling(terms, end);
    }
    lemma_select_assembled(columns, from, condition, terms, list, filter, order, rest);
}

/// The type of a column, spelled. The length of a `VARCHAR` is always
/// written out.
pub open spec fn type_spelling(ty: DBType) -> Seq<SpecToken> {
    match ty {
        DBType::Int => seq![SpecToken::Keyword(Keyword::Int)],
        DBType::Bool => seq![SpecToken::Keyword(Keyword::Bool)],
        DBType::Varchar(n) => seq![
            SpecToken::Keyword(Keyword::Varchar),
            SpecToken::LeftParentheses,
            SpecToken::Number(n as u64),
            SpecToken::RightParentheses,
        ],
    }
}

/// Reading a column type as it is spelled gives the type.
pub proof fn lemma_column_type_reads_spelling(ty: DBType, rest: Seq<SpecToken>)
    ensures
        column_type(type_spelling(ty) + rest) == accept(ty, type_spelling(ty).len()),
{
    reveal(column_type);
    let tokens = type_spelling(ty) + rest;
    assert(tokens[0] == type_spelling(ty)[0]);
    if let DBType::Varchar(n) = ty {
        assert(rest_after(tokens, 1)[0] == tokens[1]);
        assert(rest_after(tokens, 2)[0] == tokens[2]);
        assert(rest_after(tokens, 3)[0] == tokens[3]);
        assert((n as u64) as usize == n);
    }
}

/// Whether a constraint can be spelled: a condition to check is a plain
/// expression.
pub open spec fn is_constraint(c: SpecConstraint) -> bool {
    c matches SpecConstraint::Check(e) ==> is_plain(e)
}

/// Whether each of `constraints` can be spelled.
pub open spec fn are_constraints(constraints: Seq<SpecConstraint>) -> bool {
    forall|i: int| 0 <= i < constraints.len() ==> is_constraint(#[trigger] constraints[i])
}

/// A constraint, spelled.
pub open spec fn constraint_spelling(c: SpecConstraint) -> Seq<SpecToken> {
    match c {
        SpecConstraint::NotNull => seq![
            SpecToken::Keyword(Keyword::Not),
            SpecToken::Keyword(Keyword::Null),
        ],
        SpecConstraint::PrimaryKey => seq![
            SpecToken::Keyword(Keyword::Primary),
            SpecToken::Keyword(Keyword::Key),
        ],
        SpecConstraint::Check(e) => seq![
            SpecToken::Keyword(Keyword::Check),
            SpecToken::LeftParentheses,
        ] + (spelling(e) + seq![SpecToken::RightParentheses]),
    }
}

/// Constraints, spelled one after another.
pub open spec fn constraints_spelling(constraints: Seq<SpecConstraint>) -> Seq<SpecToken>
    decreases constraints.len(),
{
    if constraints.len() == 0 {
        Seq::empty()
    } else {
        constraint_spelling(constraints[0]) + constraints_spelling(constraints.skip(1))
    }
}

/// Whether a token begins a constraint.
pub open spec fn begins_constraint(token: SpecToken) -> bool {
    ||| token == SpecToken::Keyword(Keyword::Not)
    ||| token == SpecToken::Keyword(Keyword::Primary)
    ||| token == SpecToken::Keyword(Keyword::Check)
}

/// Reading one constraint as it is spelled, and then the constraints that
/// follow it, comes to reading those with the one added to the list.
proof fn lemma_constraint_reads_spelling(
    c: SpecConstraint,
    before: Seq<SpecConstraint>,
    rest: Seq<SpecToken>,
)
    requires
        is_constraint(c),
    ensures
        constraint_list(constraint_spelling(c) + rest, before) == constraint_list(
            rest,
            before.push(c),
        ).later(constraint_spelling(c).len()),
{
    reveal(constraint_list);
    let first = constraint_spelling(c);
    let tokens = first + rest;
    assert(tokens[0] == first[0]);
    assert(rest_after(tokens, 1)[0] == first[1]);
    match c {
        SpecConstraint::Check(e) => {
            let open = seq![SpecToken::Keyword(Keyword::Check), SpecToken::LeftParentheses];
            let close = seq![SpecToken::RightParentheses] + rest;
            assert(tokens =~= open + (spelling(e) + close));
            assert(rest_after(tokens, 2) == spelling(e) + close) by {
                lemma_after_head(open, spelling(e) + close);
            }
            assert(first_token(close) == SpecToken::RightParentheses && rest_after(close, 1)
                == rest) by {
                lemma_after_head(seq![SpecToken::RightParentheses], rest);
                assert(seq![SpecToken::RightParentheses].skip(1) + rest =~= rest);
            }
            lemma_expression_reads_spelling(e, close);
            let n = spelling(e).len();
            assert(rest_after(tokens, 2 + n) == close) by {
                lemma_after_head(spelling(e), close);
                lemma_rest_after_twice(tokens, 2, n);
            }
            assert(rest_after(tokens, 3 + n) == rest) by {
                lemma_rest_after_twice(tokens, 2 + n, 1);
            }
        },
        _ => {
            assert(rest_after(tokens, 2) == rest) by {
                lemma_after_head(first, rest);
            }
        },
    }
}

/// Reading constraints as they are spelled gives the constraints.
pub proof fn lemma_constraint_list_reads_spelling(
    constraints: Seq<SpecConstraint>,
    before: Seq<SpecConstraint>,
    rest: Seq<SpecToken>,
)
    requires
        are_constraints(constraints),
        !begins_constraint(first_token(rest)),
    ensures
        constraint_list(constraints_spelling(constraints) + rest, before) == accept(
            before + constraints,
            constraints_spelling(constraints).len(),
        ),
    decreases constraints.len(),
{
    reveal(constraint_list);
    let tokens = constraints_spelling(constraints) + rest;
    if constraints.len() == 0 {
        assert(tokens =~= rest);
        assert(before + constraints =~= before);
    } else {
        let c = constraints[0];
        let others = constraints.skip(1);
        let after = constraints_spelling(others) + rest;
        assert(tokens =~= constraint_spelling(c) + after);
        lemma_constraint_reads_spelling(c, before, after);
        assert(are_constraints(others)) by {
            assert forall|i: int| 0 <= i < others.len() implies is_constraint(
                #[trigger] others[i],
            ) by {
                assert(others[i] == constraints[i + 1]);
            }
        }
        lemma_constraint_list_reads_spelling(others, before.push(c), rest);
        assert(before.push(c) + others =~= before + constraints);
    }
}

/// A column definition, spelled: name, type and constraints.
pub open spec fn column_spelling(column: SpecTableColumn) -> Seq<SpecToken> {
    seq![SpecToken::Identifier(column.column_name)] + type_spelling(column.column_type)
        + constraints_spelling(column.constraints)
}

/// Reading a column definition as it is spelled gives the definition.
pub proof fn lemma_column_definition_reads_spelling(column: SpecTableColumn, rest: Seq<SpecToken>)
    requires
        are_constraints(column.constraints),
        !begins_constraint(first_token(rest)),
    ensures
        column_definition(column_spelling(column) + rest) == accept(
            column,
            column_spelling(column).len(),
        ),
{
    reveal(column_definition);
    let tokens = column_spelling(column) + rest;
    let label = seq![SpecToken::Identifier(column.column_name)];
    let ty = type_spelling(column.column_type);
    let constraints = constraints_spelling(column.constraints);
    let after_type = constraints + rest;
    let after_name = ty + after_type;
    assert(tokens =~= label + after_name);
    assert(first_token(tokens) == SpecToken::Identifier(column.column_name) && rest_after(
        tokens,
        1,
    ) == after_name) by {
        lemma_after_head(label, after_name);
    }
    assert(column_type(after_name) == accept(column.column_type, ty.len())) by {
        lemma_column_type_reads_spelling(column.column_type, after_type);
    }
    assert(rest_after(tokens, 1 + ty.len()) == after_type) by {
        lemma_after_head(ty, after_type);
        lemma_rest_after_twice(tokens, 1, ty.len());
    }
    assert(constraint_list(after_type, Seq::empty()) == accept(
        column.constraints,
        constraints.len(),
    )) by {
        lemma_constraint_list_reads_spelling(column.constraints, Seq::empty(), rest);
        assert(Seq::<SpecConstraint>::empty() + column.constraints =~= column.constraints);
    }
}

/// Whether each of `columns` can be spelled.
pub open spec fn are_definitions(columns: Seq<SpecTableColumn>) -> bool {
    forall|i: int| 0 <= i < columns.len() ==> are_constraints((#[trigger] columns[i]).constraints)
}

/// Column definitions, spelled with commas between them and the closing
/// parenthesis after the last.
pub open spec fn definitions_spelling(columns: Seq<SpecTableColumn>) -> Seq<SpecToken>
    decreases columns.len(),
{
    if columns.len() == 0 {
        Seq::empty()
    } else if columns.len() == 1 {
        column_spelling(columns[0]) + seq![SpecToken::RightParentheses]
    } else {
        column_spelling(columns[0]) + (seq![SpecToken::Comma] + definitions_spelling(
            columns.skip(1),
        ))
    }
}

/// Reading column definitions as they are spelled gives the definitions.
pub proof fn lemma_column_definitions_reads_spelling(
    columns: Seq<SpecTableColumn>,
    before: Seq<SpecTableColumn>,
    rest: Seq<SpecToken>,
)
    requires
        columns.len() >= 1,
        are_definitions(columns),
    ensures
        column_definitions(definitions_spelling(columns) + rest, before) == accept(
            before + columns,
            definitions_spelling(columns).len(),
        ),
    decreases columns.len(),
{
    reveal(column_definitions);
    let tokens = definitions_spelling(columns) + rest;
    let c = columns[0];
    let first = column_spelling(c);
    let others = columns.skip(1);
    let after = if columns.len() == 1 {
        seq![SpecToken::RightParentheses] + rest
    } else {
        seq![SpecToken::Comma] + (definitions_spelling(others) + rest)
    };
    assert(tokens =~= first + after);
    assert(first[0] == SpecToken::Identifier(c.column_name));
    assert(tokens[0] == first[0]);
    assert(first_token(after) == after[0]);
    lemma_column_definition_reads_spelling(c, after);
    assert(rest_after(tokens, first.len()) == after) by {
        lemma_after_head(first, after);
    }
    if columns.len() == 1 {
        assert(before + columns =~= before.push(c));
    } else {
        let next = definitions_spelling(others) + rest;
        assert(rest_after(tokens, first.len() + 1) == next) by {
            lemma_after_head(seq![SpecToken::Comma], next);
            assert(seq![SpecToken::Comma].skip(1) + next =~= next);
            lemma_rest_after_twice(tokens, first.len(), 1);
        }
        assert(are_definitions(others)) by {
            assert forall|i: int| 0 <= i < others.len() implies are_constraints(
                (#[trigger] others[i]).constraints,
            ) by {
                assert(others[i] == columns[i + 1]);
            }
        }
        lemma_column_definitions_reads_spelling(others, before.push(c), rest);
        assert(before.push(c) + others =~= before + columns);
    }
}

/// Whether the columns of a `CREATE TABLE` statement can be spelled: there
/// is a column, and every condition to check is a plain expression.
pub open spec fn is_create(columns: Seq<SpecTableColumn>) -> bool {
    columns.len() >= 1 && are_definitions(columns)
}

/// A `CREATE TABLE` statement, spelled.
pub open spec fn create_spelling(
    table_name: Seq<char>,
    columns: Seq<SpecTableColumn>,
) -> Seq<SpecToken> {
    seq![
        SpecToken::Keyword(Keyword::Create),
        SpecToken::Keyword(Keyword::Table),
        SpecToken::Identifier(table_name),
        SpecToken::LeftParentheses,
    ] + definitions_spelling(columns) + seq![SpecToken::Semicolon]
}

/// Reading a `CREATE TABLE` statement as it is spelled gives the
/// statement, whatever follows it.
pub proof fn lemma_create_reads_spelling(
    table_name: Seq<char>,
    columns: Seq<SpecTableColumn>,
    rest: Seq<SpecToken>,
)
    requires
        is_create(columns),
    ensures
        create_statement(create_spelling(table_name, columns) + rest) == accept(
            SpecStatement::CreateTable { table_name, column_list: columns },
            create_spelling(table_name, columns).len(),
        ),
{
    let tokens = create_spelling(table_name, columns) + rest;
    let head = seq![
        SpecToken::Keyword(Keyword::Create),
        SpecToken::Keyword(Keyword::Table),
        SpecToken::Identifier(table_name),
        SpecToken::LeftParentheses,
    ];
    let definitions = definitions_spelling(columns);
    let end = seq![SpecToken::Semicolon] + rest;
    let after_head = definitions + end;
    assert(tokens =~= head + after_head);
    assert(tokens[0] == head[0]);
    assert(rest_after(tokens, 1)[0] == head[1]);
    assert(rest_after(tokens, 2)[0] == head[2]);
    assert(rest_after(tokens, 3)[0] == head[3]);
    assert(rest_after(tokens, 4) == after_head) by {
        lemma_after_head(head, after_head);
    }
    assert(column_definitions(after_head, Seq::empty()) == accept(columns, definitions.len())) by {
        lemma_column_definitions_reads_spelling(columns, Seq::empty(), end);
        assert(Seq::<SpecTableColumn>::empty() + columns =~= columns);
    }
    assert(rest_after(tokens, 4 + definitions.len()) == end) by {
        lemma_after_head(definitions, end);
        lemma_rest_after_twice(tokens, 4, definitions.len());
    }
    assert(first_token(end) == SpecToken::Semicolon) by {
        lemma_after_head(seq![SpecToken::Semicolon], rest);
    }
}

/// Whether a statement can be spelled.
pub open spec fn is_statement(s: SpecStatement) -> bool {
    match s {
        SpecStatement::Select { columns, from, where_clause, orderby } => is_select(
            columns,
            where_clause,
            orderby,
        ),
        SpecStatement::CreateTable { table_name, column_list } => is_create(column_list),
    }
}

/// A statement, spelled.
pub open spec fn statement_spelling(s: SpecStatement) -> Seq<SpecToken> {
    match s {
        SpecStatement::Select { columns, from, where_clause, orderby } => select_spelling(
            columns,
            from,
            where_clause,
            orderby,
        ),
        SpecStatement::CreateTable { table_name, column_list } => create_spelling(
            table_name,
            column_list,
        ),
    }
}

/// Reading a statement as it is spelled gives the statement, whatever
/// follows it: every statement with at least one column, made of plain
/// expressions, is the parse of its spelling.
pub proof fn lemma_statement_reads_spelling(s: SpecStatement, rest: Seq<SpecToken>)
    requires
        is_statement(s),
    ensures
        statement(statement_spelling(s) + rest) == accept(s, statement_spelling(s).len()),
{
    let tokens = statement_spelling(s) + rest;
    assert(tokens[0] == statement_spelling(s)[0]);
    match s {
        SpecStatement::Select { columns, from, where_clause, orderby } => {
            lemma_select_reads_spelling(columns, from, where_clause, orderby, rest);
        },
        SpecStatement::CreateTable { table_name, column_list } => {
            lemma_create_reads_spelling(table_name, column_list, rest);
        },
    }
}

/// A column list that is read holds columns only.
pub proof fn lemma_select_list_yields_columns(
    tokens: Seq<SpecToken>,
    before: Seq<SpecExpression>,
)
    requires
        are_columns(before),
    ensures
        select_list(tokens, before).result matches Ok(all) ==> are_columns(all),
    decreases tokens.len(), 1nat,
{
    reveal(select_list);
    reveal(select_separator);
    match first_token(tokens) {
        SpecToken::Star => {
            lemma_select_separator_yields_columns(
                rest_after(tokens, 1),
                before.push(SpecExpression::AllColumns),
            );
        },
        SpecToken::Keyword(Keyword::From) => {},
        _ => {
            let column = expression(tokens);
            lemma_expression_is_plain(tokens);
            if let Ok(e) = column.result {
                lemma_select_separator_yields_columns(
                    rest_after(tokens, column.consumed),
                    before.push(e),
                );
            }
        },
    }
}

/// What follows a column adds columns only.
pub proof fn lemma_select_separator_yields_columns(
    tokens: Seq<SpecToken>,
    before: Seq<SpecExpression>,
)
    requires
        are_columns(before),
    ensures
        select_separator(tokens, before).result matches Ok(all) ==> are_columns(all),
    decreases tokens.len(), 0nat,
{
    reveal(select_list);
    reveal(select_separator);
    if first_token(tokens) == SpecToken::Comma {
        lemma_select_list_yields_columns(rest_after(tokens, 1), before);
    }
}

/// A list of sort terms that is read holds sort terms only.
pub proof fn lemma_order_terms_yields_terms(tokens: Seq<SpecToken>, before: Seq<SpecExpression>)
    requires
        are_terms(before),
    ensures
        order_terms(tokens, before).result matches Ok(all) ==> are_terms(all),
    decreases tokens.len(),
{
    reveal(order_terms);
    let term = expression(tokens);
    lemma_expression_is_plain(tokens);
    if let Ok(e) = term.result {
        let next = first_token(rest_after(tokens, term.consumed));
        let n = if is_direction(next) {
            term.consumed + 1
        } else {
            term.consumed
        };
        let terms = before.push(with_direction(e, next));
        assert(is_term(with_direction(e, next)));
        if first_token(rest_after(tokens, n)) == SpecToken::Comma {
            lemma_order_terms_yields_terms(rest_after(tokens, n + 1), terms);
        }
    }
}

/// A list of constraints that is read holds constraints that can be
/// spelled.
pub proof fn lemma_constraint_list_yields_constraints(
    tokens: Seq<SpecToken>,
    before: Seq<SpecConstraint>,
)
    requires
        are_constraints(before),
    ensures
        constraint_list(tokens, before).result matches Ok(all) ==> are_constraints(all),
    decreases tokens.len(),
{
    reveal(constraint_list);
    match first_token(tokens) {
        SpecToken::Keyword(Keyword::Not) => {
            lemma_constraint_list_yields_constraints(
                rest_after(tokens, 2),
                before.push(SpecConstraint::NotNull),
            );
        },
        SpecToken::Keyword(Keyword::Primary) => {
            lemma_constraint_list_yields_constraints(
                rest_after(tokens, 2),
                before.push(SpecConstraint::PrimaryKey),
            );
        },
        SpecToken::Keyword(Keyword::Check) => {
            let condition = expression(rest_after(tokens, 2));
            lemma_expression_is_plain(rest_after(tokens, 2));
            if let Ok(e) = condition.result {
                lemma_constraint_list_yields_constraints(
                    rest_after(tokens, 3 + condition.consumed),
                    before.push(SpecConstraint::Check(e)),
                );
            }
        },
        _ => {},
    }
}

/// A list of column definitions that is read holds definitions that can be
/// spelled.
pub proof fn lemma_column_definitions_yields_definitions(
    tokens: Seq<SpecToken>,
    before: Seq<SpecTableColumn>,
)
    requires
        are_definitions(before),
    ensures
        column_definitions(tokens, before).result matches Ok(all) ==> are_definitions(all),
    decreases tokens.len(),
{
    reveal(column_definitions);
    reveal(column_definition);
    if first_token(tokens) != SpecToken::RightParentheses {
        let column = column_definition(tokens);
        if let Ok(c) = column.result {
            // The name takes one token, the type those after it.
            let ty = column_type(rest_after(tokens, 1));
            lemma_constraint_list_yields_constraints(
                rest_after(tokens, 1 + ty.consumed),
                Seq::empty(),
            );
            if first_token(rest_after(tokens, column.consumed)) == SpecToken::Comma {
                lemma_column_definitions_yields_definitions(
                    rest_after(tokens, column.consumed + 1),
                    before.push(c),
                );
            }
        }
    }
}

/// Every statement that is read can be spelled. With
/// [`lemma_statement_reads_spelling`]: the statements that parsing yields
/// are those that can be spelled, and no others.
pub proof fn lemma_statement_is_spelled(tokens: Seq<SpecToken>)
    ensures
        statement(tokens).result matches Ok(s) ==> is_statement(s),
{
    reveal(where_clause);
    reveal(order_by);
    if let Ok(s) = statement(tokens).result {
        lemma_statement_has_a_column(tokens);
        match s {
            SpecStatement::Select { columns, from, where_clause: filter, orderby } => {
                // SELECT takes one token, FROM and the table's name two.
                let list = select_list(rest_after(tokens, 1), Seq::empty());
                lemma_select_list_yields_columns(rest_after(tokens, 1), Seq::empty());
                let from_condition = rest_after(tokens, 1 + list.consumed + 2);
                let condition = where_clause(from_condition);
                lemma_expression_is_plain(rest_after(from_condition, 1));
                let from_order = rest_after(tokens, 1 + list.consumed + 2 + condition.consumed);
                lemma_order_terms_yields_terms(rest_after(from_order, 2), Seq::empty());
            },
            SpecStatement::CreateTable { table_name, column_list } => {
                lemma_column_definitions_yields_definitions(rest_after(tokens, 4), Seq::empty());
            },
        }
    }
}

/// From text to tree: a statement that is spelled, written out as text,
/// tokenized and parsed, is the statement again.
pub proof fn lemma_statement_round_trip(s: SpecStatement)
    requires
        is_statement(s),
        are_writable(statement_spelling(s)),
    ensures
        lex(source(statement_spelling(s))) matches Ok(tokens) && statement(tokens) == accept(
            s,
            statement_spelling(s).len(),
        ),
{
    let spelled = statement_spelling(s);
    let end = seq![SpecToken::Eof];
    lemma_source_is_read(spelled);
    lemma_statement_reads_spelling(s, end);
    assert(spelled.push(SpecToken::Eof) =~= spelled + end);
}

} // verus!
