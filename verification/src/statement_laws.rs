//! What holds of every statement the grammar yields, and of the tokenizer
//! and the parser as functions: a statement ends in `;`, neither kind of
//! statement is without columns, and equal inputs give equal results.

use crate::grammar::{
    column_definition, column_definitions, create_statement, expect_semicolon, expression,
    first_token, select_list, select_separator, select_statement, statement,
};
use crate::remaining::{lemma_rest_after_twice, rest_after};
use crate::sql_parser::statement_view;
use crate::statement::{SpecExpression, SpecStatement, SpecTableColumn, Statement};
use crate::token::{Keyword, SpecToken, Token};
use crate::tokenizer::{lex, lexed_view};
use vstd::prelude::*;

verus! {

/// A column list that is read holds the columns read before it, and at
/// least one column.
pub proof fn lemma_select_list_is_not_empty(tokens: Seq<SpecToken>, columns: Seq<SpecExpression>)
    ensures
        select_list(tokens, columns).result matches Ok(all) ==> all.len() >= 1 && all.len()
            >= columns.len(),
    decreases tokens.len(), 1nat,
{
    reveal(select_list);
    reveal(select_separator);
    match first_token(tokens) {
        SpecToken::Star => {
            lemma_select_separator_keeps_columns(
                rest_after(tokens, 1),
                columns.push(SpecExpression::AllColumns),
            );
        },
        SpecToken::Keyword(Keyword::From) => {},
        _ => {
            let column = expression(tokens);
            if let Ok(e) = column.result {
                lemma_select_separator_keeps_columns(
                    rest_after(tokens, column.consumed),
                    columns.push(e),
                );
            }
        },
    }
}

/// What follows a column takes no column away.
pub proof fn lemma_select_separator_keeps_columns(
    tokens: Seq<SpecToken>,
    columns: Seq<SpecExpression>,
)
    ensures
        select_separator(tokens, columns).result matches Ok(all) ==> all.len() >= columns.len(),
    decreases tokens.len(), 0nat,
{
    reveal(select_list);
    reveal(select_separator);
    if first_token(tokens) == SpecToken::Comma {
        lemma_select_list_is_not_empty(rest_after(tokens, 1), columns);
    }
}

/// A list of column definitions that is read holds the definitions read
/// before it. It is empty only where a closing parenthesis stands in place
/// of the first definition, and that parenthesis is then still unread.
pub proof fn lemma_column_definitions_grow(tokens: Seq<SpecToken>, columns: Seq<SpecTableColumn>)
    ensures
        column_definitions(tokens, columns).result matches Ok(all) ==> {
            &&& all.len() >= columns.len()
            &&& all.len() == 0 ==> first_token(
                rest_after(tokens, column_definitions(tokens, columns).consumed),
            ) == SpecToken::RightParentheses
        },
    decreases tokens.len(),
{
    reveal(column_definitions);
    if first_token(tokens) == SpecToken::RightParentheses {
        lemma_rest_after_twice(tokens, 0, 0);
    } else {
        let column = column_definition(tokens);
        if let Ok(c) = column.result {
            if first_token(rest_after(tokens, column.consumed)) == SpecToken::Comma {
                lemma_column_definitions_grow(
                    rest_after(tokens, column.consumed + 1),
                    columns.push(c),
                );
            }
        }
    }
}

/// Every `SELECT` statement has at least one column.
pub proof fn lemma_select_has_a_column(tokens: Seq<SpecToken>)
    ensures
        select_statement(tokens).result matches Ok(SpecStatement::Select { columns, .. })
            ==> columns.len() >= 1,
        select_statement(tokens).result matches Ok(s) ==> s is Select,
{
    lemma_select_list_is_not_empty(rest_after(tokens, 1), Seq::empty());
}

/// Every `CREATE TABLE` statement has at least one column: an empty pair
/// of parentheses is not read as a column list.
pub proof fn lemma_create_has_a_column(tokens: Seq<SpecToken>)
    ensures
        create_statement(tokens).result matches Ok(SpecStatement::CreateTable { column_list, .. })
            ==> column_list.len() >= 1,
        create_statement(tokens).result matches Ok(s) ==> s is CreateTable,
{
    if create_statement(tokens).result is Ok {
        // CREATE, TABLE, a name and `(` take one token each.
        lemma_column_definitions_grow(rest_after(tokens, 4), Seq::empty());
        lemma_rest_after_twice(
            tokens,
            4,
            column_definitions(rest_after(tokens, 4), Seq::empty()).consumed,
        );
    }
}

/// Every statement has at least one column.
pub proof fn lemma_statement_has_a_column(tokens: Seq<SpecToken>)
    ensures
        statement(tokens).result matches Ok(SpecStatement::Select { columns, .. })
            ==> columns.len() >= 1,
        statement(tokens).result matches Ok(SpecStatement::CreateTable { column_list, .. })
            ==> column_list.len() >= 1,
{
    lemma_select_has_a_column(tokens);
    lemma_create_has_a_column(tokens);
}

/// Whether the first `n` of `tokens` exist and end in `;`.
pub open spec fn ends_in_semicolon(tokens: Seq<SpecToken>, n: nat) -> bool {
    1 <= n <= tokens.len() && tokens[n - 1] == SpecToken::Semicolon
}

/// Every statement ends in `;`: the last token that a successful parse
/// consumes is a semicolon. Where none stands at the end of a statement,
/// the parse fails.
pub proof fn lemma_statement_ends_in_semicolon(tokens: Seq<SpecToken>)
    ensures
        statement(tokens).result is Ok ==> ends_in_semicolon(tokens, statement(tokens).consumed),
{
    if statement(tokens).result is Ok {
        let n = statement(tokens).consumed;
        let before = (n - 1) as nat;
        assert(expect_semicolon(rest_after(tokens, before)).result is Ok);
        assert(rest_after(tokens, before)[0] == tokens[before as int]);
    }
}

/// A `SELECT` without columns is rejected, whatever follows `FROM`.
pub proof fn lemma_select_without_columns_fails(tokens: Seq<SpecToken>)
    requires
        first_token(tokens) == SpecToken::Keyword(Keyword::Select),
        first_token(rest_after(tokens, 1)) == SpecToken::Keyword(Keyword::From),
    ensures
        statement(tokens).result == Err::<SpecStatement, Seq<char>>(
            "Expected at least one column before FROM"@,
        ),
{
    reveal(select_list);
}

/// Tokenizing is a function of the text: two runs on equal texts give
/// equal tokens, or equal errors.
pub proof fn lemma_tokenize_is_deterministic(
    first_input: &str,
    second_input: &str,
    first: Result<Vec<Token>, String>,
    second: Result<Vec<Token>, String>,
)
    requires
        first_input@ == second_input@,
        lexed_view(first) == lex(first_input@),
        lexed_view(second) == lex(second_input@),
    ensures
        lexed_view(first) == lexed_view(second),
{
}

/// Parsing is a function of the tokens that are left to read: two runs
/// from equal tokens give equal trees, or equal errors, and leave equal
/// tokens unread.
pub proof fn lemma_parse_is_deterministic(
    first_before: Seq<SpecToken>,
    second_before: Seq<SpecToken>,
    first: Result<Statement, String>,
    second: Result<Statement, String>,
    first_after: Seq<SpecToken>,
    second_after: Seq<SpecToken>,
)
    requires
        first_before == second_before,
        statement_view(first) == statement(first_before).result,
        first_after == rest_after(first_before, statement(first_before).consumed),
        statement_view(second) == statement(second_before).result,
        second_after == rest_after(second_before, statement(second_before).consumed),
    ensures
        statement_view(first) == statement_view(second),
        first_after == second_after,
{
}

} // verus!
