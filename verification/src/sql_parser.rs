//! The statement parser: a cursor over a token sequence, and the
//! recursive-descent parsers for `SELECT` and `CREATE TABLE`.

use crate::grammar::{
    column_definition, column_definitions, column_type, constraint_list, create_statement,
    expect_keyword, expect_semicolon, expect_token, expression, first_token, is_direction, name,
    order_by, order_terms, same_kind, select_list, select_separator, select_statement, statement,
    where_clause,
};
use crate::message::{
    expected_comma_or_from_message, expected_keyword_message, expected_semicolon_message,
    expected_token_message,
};
use crate::pratt_parsing::parse_expression;
use crate::remaining::{lemma_rest_after_twice, rest_after};
use crate::statement_laws::{
    ends_in_semicolon, lemma_statement_ends_in_semicolon, lemma_statement_has_a_column,
};
use crate::statement::{
    columns_view, constraints_view, expressions_view, Constraint, DBType, Expression,
    SpecConstraint, SpecExpression, SpecStatement, SpecTableColumn, Statement, TableColumn,
    UnaryOperator,
};
use crate::token::{tokens_view, Keyword, SpecToken, Token};
use vstd::prelude::*;
use vstd::string::*;

verus! {

/// A token sequence and a cursor into it.
pub struct Parser {
    tokens: Vec<Token>,
    current: usize,
}

impl View for Parser {
    type V = Seq<SpecToken>;

    /// The tokens that are still to be read.
    closed spec fn view(&self) -> Seq<SpecToken> {
        tokens_view(self.tokens@).skip(self.current as int)
    }
}

impl Parser {
    #[verifier::type_invariant]
    spec fn cursor_in_bounds(self) -> bool {
        self.current <= self.tokens.len()
    }

    /// A parser at the start of `tokens`.
    pub fn new(tokens: Vec<Token>) -> (parser: Self)
        ensures
            parser@ == tokens_view(tokens@),
    {
        proof {
            assert(tokens_view(tokens@).skip(0) =~= tokens_view(tokens@));
        }
        Parser { tokens, current: 0 }
    }

    /// The token under the cursor, which stays where it is. Once every
    /// token is read this is the end-of-input token.
    pub fn peek(&self) -> (token: &Token)
        ensures
            token@ == first_token(self@),
    {
        proof {
            use_type_invariant(self);
        }
        if self.current < self.tokens.len() {
            &self.tokens[self.current]
        } else {
            &Token::Eof
        }
    }

    /// The token under the cursor, which moves on by one. At the end of
    /// the tokens the cursor stays and the end-of-input token is returned.
    pub fn advance(&mut self) -> (token: &Token)
        ensures
            token@ == first_token(old(self)@),
            final(self)@ == rest_after(old(self)@, 1),
    {
        proof {
            use_type_invariant(&*self);
        }
        let idx = self.current;
        if idx < self.tokens.len() {
            self.current = idx + 1;
            proof {
                assert(tokens_view(self.tokens@).skip(idx as int).skip(1) =~= tokens_view(
                    self.tokens@,
                ).skip(idx + 1));
            }
            &self.tokens[idx]
        } else {
            &Token::Eof
        }
    }

    /// Whether the token under the cursor is the keyword `keyword`.
    pub fn match_keyword(&self, keyword: Keyword) -> (found: bool)
        ensures
            found == (first_token(self@) == SpecToken::Keyword(keyword)),
    {
        match self.peek() {
            Token::Keyword(k) => *k == keyword,
            _ => false,
        }
    }

    /// Whether the token under the cursor is of the same kind as
    /// `expected`, whatever the two carry.
    pub fn match_token(&self, expected: Token) -> (found: bool)
        ensures
            found == same_kind(first_token(self@), expected@),
    {
        match (self.peek(), &expected) {
            (Token::LeftParentheses, Token::LeftParentheses) => true,
            (Token::RightParentheses, Token::RightParentheses) => true,
            (Token::Comma, Token::Comma) => true,
            (Token::Semicolon, Token::Semicolon) => true,
            (Token::Plus, Token::Plus) => true,
            (Token::Minus, Token::Minus) => true,
            (Token::Star, Token::Star) => true,
            (Token::Divide, Token::Divide) => true,
            (Token::Equal, Token::Equal) => true,
            (Token::NotEqual, Token::NotEqual) => true,
            (Token::GreaterThan, Token::GreaterThan) => true,
            (Token::GreaterThanOrEqual, Token::GreaterThanOrEqual) => true,
            (Token::LessThan, Token::LessThan) => true,
            (Token::LessThanOrEqual, Token::LessThanOrEqual) => true,
            (Token::Number(_), Token::Number(_)) => true,
            (Token::String(_), Token::String(_)) => true,
            (Token::Identifier(_), Token::Identifier(_)) => true,
            (Token::Keyword(_), Token::Keyword(_)) => true,
            (Token::Invalid(_), Token::Invalid(_)) => true,
            (Token::Eof, Token::Eof) => true,
            _ => false,
        }
    }

    /// Reads the token `expected`: the token under the cursor has to be of
    /// the same kind and carry the same. Any other token is left unread and
    /// reported together with `expected`.
    pub fn expect_token_any_line(&mut self, expected: Token) -> (res: Result<(), String>)
        ensures
            unit_view(res) == expect_token(old(self)@, expected@).result,
            final(self)@ == rest_after(old(self)@, expect_token(old(self)@, expected@).consumed),
            res is Ok <==> first_token(old(self)@) == expected@,
    {
        if self.peek().same_as(&expected) {
            self.advance();
            Ok(())
        } else {
            Err(expected_token_message(&expected, self.peek()))
        }
    }

    /// Reads the keyword `kw`. Any other token is left unread and reported
    /// together with `kw`.
    pub fn expect_keyword_any_line(&mut self, kw: Keyword) -> (res: Result<(), String>)
        ensures
            unit_view(res) == expect_keyword(old(self)@, kw).result,
            final(self)@ == rest_after(old(self)@, expect_keyword(old(self)@, kw).consumed),
    {
        if self.match_keyword(kw) {
            self.advance();
            Ok(())
        } else {
            Err(expected_keyword_message(kw, self.peek()))
        }
    }

    /// Reads the `;` that ends a statement. Any other token is left unread
    /// and reported.
    pub fn expect_semicolon(&mut self) -> (res: Result<(), String>)
        ensures
            unit_view(res) == expect_semicolon(old(self)@).result,
            final(self)@ == rest_after(old(self)@, expect_semicolon(old(self)@).consumed),
    {
        match self.peek() {
            Token::Semicolon => {
                self.advance();
                Ok(())
            },
            other => Err(expected_semicolon_message(other)),
        }
    }

    /// Reads the columns of a `SELECT`, up to but not including `FROM`.
    fn parse_select_list(&mut self) -> (res: Result<Vec<Expression>, String>)
        ensures
            expressions_result_view(res) == select_list(old(self)@, Seq::empty()).result,
            final(self)@ == rest_after(
                old(self)@,
                select_list(old(self)@, Seq::empty()).consumed,
            ),
    {
        proof {
            reveal(select_list);
            reveal(select_separator);
        }
        let ghost start = self@;
        let mut columns: Vec<Expression> = Vec::new();
        let ghost mut consumed: nat = 0;
        proof {
            lemma_rest_after_twice(start, 0, 0);
            assert(expressions_view(columns@) =~= Seq::empty());
        }
        loop
            invariant_except_break
                self@ == rest_after(start, consumed),
                select_list(start, Seq::empty()) == select_list(
                    self@,
                    expressions_view(columns@),
                ).later(consumed),
            invariant
                start == old(self)@,
            ensures
                select_list(start, Seq::empty()).result == Ok::<Seq<SpecExpression>, Seq<char>>(
                    expressions_view(columns@),
                ),
                self@ == rest_after(start, select_list(start, Seq::empty()).consumed),
            decreases self@.len(),
        {
            proof {
                reveal(select_list);
                reveal(select_separator);
            }
            let ghost here = self@;
            let ghost before = expressions_view(columns@);
            let ghost mut n: nat = 0;
            match self.peek() {
                Token::Star => {
                    self.advance();
                    columns.push(Expression::AllColumns);
                    proof {
                        n = 1;
                    }
                },
                Token::Keyword(Keyword::From) => {
                    if columns.len() == 0 {
                        return Err(String::from_str("Expected at least one column before FROM"));
                    }
                    break ;
                },
                _ => {
                    match parse_expression(self) {
                        Ok(e) => {
                            columns.push(e);
                        },
                        Err(message) => {
                            proof {
                                lemma_rest_after_twice(start, consumed, expression(here).consumed);
                            }
                            return Err(message);
                        },
                    }
                    proof {
                        n = expression(here).consumed;
                    }
                },
            }
            proof {
                assert(expressions_view(columns@) =~= before.push(columns@.last()@));
                assert(select_list(here, before) == select_separator(
                    self@,
                    expressions_view(columns@),
                ).later(n));
                lemma_rest_after_twice(start, consumed, n);
            }
            match self.peek() {
                Token::Comma => {
                    self.advance();
                    proof {
                        lemma_rest_after_twice(start, consumed + n, 1);
                    }
                    if self.match_keyword(Keyword::From) {
                        return Err(String::from_str("Trailing comma before FROM is not allowed"));
                    }
                    proof {
                        consumed = consumed + n + 1;
                    }
                },
                Token::Keyword(Keyword::From) => {
                    break ;
                },
                other => {
                    return Err(expected_comma_or_from_message(other));
                },
            }
        }
        Ok(columns)
    }

    /// Reads the sort terms that follow `ORDER BY`.
    fn parse_order_terms(&mut self) -> (res: Result<Vec<Expression>, String>)
        ensures
            expressions_result_view(res) == order_terms(old(self)@, Seq::empty()).result,
            final(self)@ == rest_after(
                old(self)@,
                order_terms(old(self)@, Seq::empty()).consumed,
            ),
    {
        proof {
            reveal(order_terms);
        }
        let ghost start = self@;
        let mut orderby: Vec<Expression> = Vec::new();
        let ghost mut consumed: nat = 0;
        proof {
            lemma_rest_after_twice(start, 0, 0);
            assert(expressions_view(orderby@) =~= Seq::empty());
        }
        loop
            invariant_except_break
                self@ == rest_after(start, consumed),
                order_terms(start, Seq::empty()) == order_terms(
                    self@,
                    expressions_view(orderby@),
                ).later(consumed),
            invariant
                start == old(self)@,
            ensures
                order_terms(start, Seq::empty()).result == Ok::<Seq<SpecExpression>, Seq<char>>(
                    expressions_view(orderby@),
                ),
                self@ == rest_after(start, order_terms(start, Seq::empty()).consumed),
            decreases self@.len(),
        {
            proof {
                reveal(order_terms);
            }
            let ghost here = self@;
            let ghost before = expressions_view(orderby@);
            let ghost n = expression(here).consumed;
            let mut expr = match parse_expression(self) {
                Ok(e) => e,
                Err(message) => {
                    proof {
                        lemma_rest_after_twice(start, consumed, n);
                    }
                    return Err(message);
                },
            };
            let ghost next = first_token(self@);
            let ghost m = if is_direction(next) {
                n + 1
            } else {
                n
            };
            match self.peek() {
                Token::Keyword(Keyword::Asc) => {
                    self.advance();
                    expr =
                    Expression::UnaryOperation {
                        operand: Box::new(expr),
                        operator: UnaryOperator::Asc,
                    };
                },
                Token::Keyword(Keyword::Desc) => {
                    self.advance();
                    expr =
                    Expression::UnaryOperation {
                        operand: Box::new(expr),
                        operator: UnaryOperator::Desc,
                    };
                },
                _ => {},
            }
            orderby.push(expr);
            proof {
                lemma_rest_after_twice(here, n, 1);
                assert(self@ == rest_after(here, m));
                assert(expressions_view(orderby@) =~= before.push(orderby@.last()@));
                lemma_rest_after_twice(start, consumed, m);
            }
            if !self.match_token(Token::Comma) {
                break ;
            }
            self.advance();
            proof {
                lemma_rest_after_twice(here, m, 1);
                lemma_rest_after_twice(start, consumed, m + 1);
                consumed = consumed + m + 1;
            }
        }
        Ok(orderby)
    }

    /// Reads an identifier and returns its name. Any other token is
    /// consumed and answered with `complaint`.
    fn parse_name(&mut self, complaint: &str) -> (res: Result<String, String>)
        ensures
            name_view(res) == name(old(self)@, complaint@).result,
            final(self)@ == rest_after(old(self)@, name(old(self)@, complaint@).consumed),
    {
        match self.advance() {
            Token::Identifier(name) => Ok(name.clone()),
            _ => Err(String::from_str(complaint)),
        }
    }

    /// Reads the `WHERE` clause, if there is one.
    fn parse_where_clause(&mut self) -> (res: Result<Option<Expression>, String>)
        ensures
            condition_view(res) == where_clause(old(self)@).result,
            final(self)@ == rest_after(old(self)@, where_clause(old(self)@).consumed),
    {
        proof {
            reveal(where_clause);
        }
        let ghost start = self@;
        if self.match_keyword(Keyword::Where) {
            self.advance();
            proof {
                lemma_rest_after_twice(start, 1, expression(rest_after(start, 1)).consumed);
            }
            match parse_expression(self) {
                Ok(condition) => Ok(Some(condition)),
                Err(message) => Err(message),
            }
        } else {
            Ok(None)
        }
    }

    /// Reads the `ORDER BY` clause, if there is one.
    fn parse_order_by(&mut self) -> (res: Result<Vec<Expression>, String>)
        ensures
            expressions_result_view(res) == order_by(old(self)@).result,
            final(self)@ == rest_after(old(self)@, order_by(old(self)@).consumed),
    {
        proof {
            reveal(order_by);
        }
        let ghost start = self@;
        if self.match_keyword(Keyword::Order) {
            self.advance();
            match self.expect_keyword_any_line(Keyword::By) {
                Ok(_) => {},
                Err(message) => {
                    proof {
                        lemma_rest_after_twice(start, 1, 0);
                    }
                    return Err(message);
                },
            }
            proof {
                lemma_rest_after_twice(start, 1, 1);
                lemma_rest_after_twice(
                    start,
                    2,
                    order_terms(rest_after(start, 2), Seq::empty()).consumed,
                );
            }
            self.parse_order_terms()
        } else {
            let orderby: Vec<Expression> = Vec::new();
            proof {
                assert(expressions_view(orderby@) =~= Seq::empty());
            }
            Ok(orderby)
        }
    }

    /// Reads a `SELECT` statement: the columns, the table, an optional
    /// `WHERE` condition, an optional `ORDER BY` list, and the closing `;`.
    pub fn parse_select(&mut self) -> (res: Result<Statement, String>)
        ensures
            statement_view(res) == select_statement(old(self)@).result,
            final(self)@ == rest_after(old(self)@, select_statement(old(self)@).consumed),
    {
        let ghost start = self@;
        let ghost a = expect_keyword(start, Keyword::Select).consumed;
        match self.expect_keyword_any_line(Keyword::Select) {
            Ok(_) => {},
            Err(message) => {
                return Err(message);
            },
        }
        let ghost b = a + select_list(self@, Seq::empty()).consumed;
        proof {
            lemma_rest_after_twice(start, a, (b - a) as nat);
        }
        let columns = match self.parse_select_list() {
            Ok(columns) => columns,
            Err(message) => {
                return Err(message);
            },
        };
        let ghost c = b + expect_keyword(self@, Keyword::From).consumed;
        proof {
            lemma_rest_after_twice(start, b, (c - b) as nat);
        }
        match self.expect_keyword_any_line(Keyword::From) {
            Ok(_) => {},
            Err(message) => {
                return Err(message);
            },
        }
        let ghost d = c + name(self@, "Expected table name after FROM"@).consumed;
        proof {
            lemma_rest_after_twice(start, c, (d - c) as nat);
        }
        let from = match self.parse_name("Expected table name after FROM") {
            Ok(name) => name,
            Err(message) => {
                return Err(message);
            },
        };
        let ghost e = d + where_clause(self@).consumed;
        proof {
            lemma_rest_after_twice(start, d, (e - d) as nat);
        }
        let where_clause = match self.parse_where_clause() {
            Ok(condition) => condition,
            Err(message) => {
                return Err(message);
            },
        };
        let ghost f = e + order_by(self@).consumed;
        proof {
            lemma_rest_after_twice(start, e, (f - e) as nat);
        }
        let orderby = match self.parse_order_by() {
            Ok(terms) => terms,
            Err(message) => {
                return Err(message);
            },
        };
        proof {
            lemma_rest_after_twice(start, f, expect_semicolon(self@).consumed);
        }
        match self.expect_semicolon() {
            Ok(_) => {},
            Err(message) => {
                return Err(message);
            },
        }
        Ok(Statement::Select { columns, from, where_clause, orderby })
    }

    /// Reads the type of a column.
    fn parse_column_type(&mut self) -> (res: Result<DBType, String>)
        ensures
            column_type_view(res) == column_type(old(self)@).result,
            final(self)@ == rest_after(old(self)@, column_type(old(self)@).consumed),
    {
        proof {
            reveal(column_type);
        }
        let ghost start = self@;
        match self.advance() {
            Token::Keyword(Keyword::Int) => Ok(DBType::Int),
            Token::Keyword(Keyword::Bool) => Ok(DBType::Bool),
            Token::Keyword(Keyword::Varchar) => {
                if self.match_token(Token::LeftParentheses) {
                    match self.expect_token_any_line(Token::LeftParentheses) {
                        Ok(_) => {},
                        Err(message) => {
                            return Err(message);
                        },
                    }
                    proof {
                        lemma_rest_after_twice(start, 1, 1);
                        lemma_rest_after_twice(start, 2, 1);
                        lemma_rest_after_twice(start, 3, 1);
                        lemma_rest_after_twice(start, 3, 0);
                    }
                    let len = match self.advance() {
                        Token::Number(n) => {
                            #[verifier::truncate]
                            (*n as usize)
                        },
                        _ => {
                            return Err(String::from_str("Expected number in VARCHAR(n)"));
                        },
                    };
                    match self.expect_token_any_line(Token::RightParentheses) {
                        Ok(_) => {},
                        Err(message) => {
                            return Err(message);
                        },
                    }
                    Ok(DBType::Varchar(len))
                } else {
                    Ok(DBType::Varchar(255))
                }
            },
            _ => Err(String::from_str("Expected column type (INT, BOOL, VARCHAR)")),
        }
    }

    /// Reads the constraints of a column, as many as follow.
    fn parse_constraints(&mut self) -> (res: Result<Vec<Constraint>, String>)
        ensures
            constraints_result_view(res) == constraint_list(old(self)@, Seq::empty()).result,
            final(self)@ == rest_after(
                old(self)@,
                constraint_list(old(self)@, Seq::empty()).consumed,
            ),
    {
        proof {
            reveal(constraint_list);
        }
        let ghost start = self@;
        let mut constraints: Vec<Constraint> = Vec::new();
        let ghost mut consumed: nat = 0;
        proof {
            lemma_rest_after_twice(start, 0, 0);
            assert(constraints_view(constraints@) =~= Seq::empty());
        }
        loop
            invariant_except_break
                self@ == rest_after(start, consumed),
                constraint_list(start, Seq::empty()) == constraint_list(
                    self@,
                    constraints_view(constraints@),
                ).later(consumed),
            invariant
                start == old(self)@,
            ensures
                constraint_list(start, Seq::empty()).result == Ok::<
                    Seq<SpecConstraint>,
                    Seq<char>,
                >(constraints_view(constraints@)),
                self@ == rest_after(start, constraint_list(start, Seq::empty()).consumed),
            decreases self@.len(),
        {
            proof {
                reveal(constraint_list);
            }
            let ghost here = self@;
            let ghost before = constraints_view(constraints@);
            let ghost mut n: nat = 0;
            match self.peek() {
                Token::Keyword(Keyword::Not) => {
                    self.advance();
                    proof {
                        lemma_rest_after_twice(start, consumed, 1);
                        lemma_rest_after_twice(here, 1, 1);
                    }
                    match self.expect_keyword_any_line(Keyword::Null) {
                        Ok(_) => {},
                        Err(message) => {
                            return Err(message);
                        },
                    }
                    constraints.push(Constraint::NotNull);
                    proof {
                        n = 2;
                    }
                },
                Token::Keyword(Keyword::Primary) => {
                    self.advance();
                    proof {
                        lemma_rest_after_twice(start, consumed, 1);
                        lemma_rest_after_twice(here, 1, 1);
                    }
                    match self.expect_keyword_any_line(Keyword::Key) {
                        Ok(_) => {},
                        Err(message) => {
                            return Err(message);
                        },
                    }
                    constraints.push(Constraint::PrimaryKey);
                    proof {
                        n = 2;
                    }
                },
                Token::Keyword(Keyword::Check) => {
                    self.advance();
                    proof {
                        lemma_rest_after_twice(start, consumed, 1);
                        lemma_rest_after_twice(here, 1, 1);
                    }
                    match self.expect_token_any_line(Token::LeftParentheses) {
                        Ok(_) => {},
                        Err(message) => {
                            return Err(message);
                        },
                    }
                    let ghost k = expression(rest_after(here, 2)).consumed;
                    proof {
                        lemma_rest_after_twice(here, 2, k);
                        lemma_rest_after_twice(start, consumed, 2 + k);
                        lemma_rest_after_twice(here, 2 + k, 1);
                    }
                    let expr = match parse_expression(self) {
                        Ok(e) => e,
                        Err(message) => {
                            return Err(message);
                        },
                    };
                    match self.expect_token_any_line(Token::RightParentheses) {
                        Ok(_) => {},
                        Err(message) => {
                            return Err(message);
                        },
                    }
                    constraints.push(Constraint::Check(expr));
                    proof {
                        n = 3 + k;
                    }
                },
                _ => {
                    break ;
                },
            }
            proof {
                assert(constraints_view(constraints@) =~= before.push(constraints@.last()@));
                lemma_rest_after_twice(start, consumed, n);
                consumed = consumed + n;
            }
        }
        Ok(constraints)
    }

    /// Reads one column definition: name, type and constraints.
    fn parse_column_definition(&mut self) -> (res: Result<TableColumn, String>)
        ensures
            column_result_view(res) == column_definition(old(self)@).result,
            final(self)@ == rest_after(old(self)@, column_definition(old(self)@).consumed),
    {
        proof {
            reveal(column_definition);
        }
        let ghost start = self@;
        let ghost a = name(start, "Expected column name"@).consumed;
        let column_name = match self.parse_name("Expected column name") {
            Ok(name) => name,
            Err(message) => {
                return Err(message);
            },
        };
        let ghost b = a + column_type(self@).consumed;
        proof {
            lemma_rest_after_twice(start, a, (b - a) as nat);
        }
        let column_type = match self.parse_column_type() {
            Ok(ty) => ty,
            Err(message) => {
                return Err(message);
            },
        };
        proof {
            lemma_rest_after_twice(start, b, constraint_list(self@, Seq::empty()).consumed);
        }
        let constraints = match self.parse_constraints() {
            Ok(constraints) => constraints,
            Err(message) => {
                return Err(message);
            },
        };
        Ok(TableColumn { column_name, column_type, constraints })
    }

    /// Reads the column definitions of a `CREATE TABLE`, after the opening
    /// parenthesis.
    fn parse_column_definitions(&mut self) -> (res: Result<Vec<TableColumn>, String>)
        ensures
            columns_result_view(res) == column_definitions(old(self)@, Seq::empty()).result,
            final(self)@ == rest_after(
                old(self)@,
                column_definitions(old(self)@, Seq::empty()).consumed,
            ),
    {
        proof {
            reveal(column_definitions);
        }
        let ghost start = self@;
        let mut column_list: Vec<TableColumn> = Vec::new();
        let ghost mut consumed: nat = 0;
        proof {
            lemma_rest_after_twice(start, 0, 0);
            assert(columns_view(column_list@) =~= Seq::empty());
        }
        loop
            invariant_except_break
                self@ == rest_after(start, consumed),
                column_definitions(start, Seq::empty()) == column_definitions(
                    self@,
                    columns_view(column_list@),
                ).later(consumed),
            invariant
                start == old(self)@,
            ensures
                column_definitions(start, Seq::empty()).result == Ok::<
                    Seq<SpecTableColumn>,
                    Seq<char>,
                >(columns_view(column_list@)),
                self@ == rest_after(start, column_definitions(start, Seq::empty()).consumed),
            decreases self@.len(),
        {
            proof {
                reveal(column_definitions);
            }
            let ghost here = self@;
            let ghost before = columns_view(column_list@);
            if self.match_token(Token::RightParentheses) {
                break ;
            }
            let ghost n = column_definition(here).consumed;
            proof {
                lemma_rest_after_twice(start, consumed, n);
                lemma_rest_after_twice(here, n, 1);
                lemma_rest_after_twice(start, consumed, n + 1);
            }
            let column = match self.parse_column_definition() {
                Ok(column) => column,
                Err(message) => {
                    return Err(message);
                },
            };
            column_list.push(column);
            proof {
                assert(columns_view(column_list@) =~= before.push(column_list@.last()@));
            }
            match self.peek() {
                Token::Comma => {
                    self.advance();
                    proof {
                        consumed = consumed + n + 1;
                    }
                },
                Token::RightParentheses => {
                    self.advance();
                    break ;
                },
                _ => {
                    return Err(String::from_str("Expected ',' or ')' in column definition list"));
                },
            }
        }
        Ok(column_list)
    }

    /// Reads a `CREATE TABLE` statement: the table's name, its column
    /// definitions in parentheses, and the closing `;`. An empty pair of
    /// parentheses is no column list: the closing parenthesis is then left
    /// unread, and the statement fails for want of its `;`.
    pub fn parse_create(&mut self) -> (res: Result<Statement, String>)
        ensures
            statement_view(res) == create_statement(old(self)@).result,
            final(self)@ == rest_after(old(self)@, create_statement(old(self)@).consumed),
    {
        let ghost start = self@;
        let ghost a = expect_keyword(start, Keyword::Create).consumed;
        match self.expect_keyword_any_line(Keyword::Create) {
            Ok(_) => {},
            Err(message) => {
                return Err(message);
            },
        }
        let ghost b = a + expect_keyword(self@, Keyword::Table).consumed;
        proof {
            lemma_rest_after_twice(start, a, (b - a) as nat);
        }
        match self.expect_keyword_any_line(Keyword::Table) {
            Ok(_) => {},
            Err(message) => {
                return Err(message);
            },
        }
        let ghost c = b + name(self@, "Expected table name after CREATE TABLE"@).consumed;
        proof {
            lemma_rest_after_twice(start, b, (c - b) as nat);
        }
        let table_name = match self.parse_name("Expected table name after CREATE TABLE") {
            Ok(name) => name,
            Err(message) => {
                return Err(message);
            },
        };
        let ghost d = c + expect_token(self@, SpecToken::LeftParentheses).consumed;
        proof {
            lemma_rest_after_twice(start, c, (d - c) as nat);
        }
        match self.expect_token_any_line(Token::LeftParentheses) {
            Ok(_) => {},
            Err(message) => {
                return Err(message);
            },
        }
        let ghost e = d + column_definitions(self@, Seq::empty()).consumed;
        proof {
            lemma_rest_after_twice(start, d, (e - d) as nat);
        }
        let column_list = match self.parse_column_definitions() {
            Ok(columns) => columns,
            Err(message) => {
                return Err(message);
            },
        };
        proof {
            lemma_rest_after_twice(start, e, expect_semicolon(self@).consumed);
        }
        match self.expect_semicolon() {
            Ok(_) => {},
            Err(message) => {
                return Err(message);
            },
        }
        Ok(Statement::CreateTable { table_name, column_list })
    }

    /// Parses one statement: a `SELECT` or a `CREATE TABLE`, chosen by the
    /// token under the cursor. On success the cursor stands behind the
    /// statement's `;`; on failure it stands where the error was found, and
    /// the message names what was expected there.
    pub fn parse(&mut self) -> (res: Result<Statement, String>)
        ensures
            statement_view(res) == statement(old(self)@).result,
            final(self)@ == rest_after(old(self)@, statement(old(self)@).consumed),
            res is Ok ==> ends_in_semicolon(old(self)@, statement(old(self)@).consumed),
            res matches Ok(Statement::Select { columns, .. }) ==> columns@.len() >= 1,
            res matches Ok(Statement::CreateTable { column_list, .. }) ==> column_list@.len() >= 1,
    {
        proof {
            lemma_statement_ends_in_semicolon(self@);
            lemma_statement_has_a_column(self@);
        }
        match self.peek() {
            Token::Keyword(Keyword::Select) => self.parse_select(),
            Token::Keyword(Keyword::Create) => self.parse_create(),
            _ => Err(String::from_str("Expected SELECT or CREATE statement")),
        }
    }
}

/// What the result of reading a column type stands for.
pub open spec fn column_type_view(r: Result<DBType, String>) -> Result<DBType, Seq<char>> {
    match r {
        Ok(ty) => Ok(ty),
        Err(message) => Err(message@),
    }
}

/// What the result of reading a list of constraints stands for.
pub open spec fn constraints_result_view(r: Result<Vec<Constraint>, String>) -> Result<
    Seq<SpecConstraint>,
    Seq<char>,
> {
    match r {
        Ok(v) => Ok(constraints_view(v@)),
        Err(message) => Err(message@),
    }
}

/// What the result of reading a column definition stands for.
pub open spec fn column_result_view(r: Result<TableColumn, String>) -> Result<
    SpecTableColumn,
    Seq<char>,
> {
    match r {
        Ok(c) => Ok(c@),
        Err(message) => Err(message@),
    }
}

/// What the result of reading a list of column definitions stands for.
pub open spec fn columns_result_view(r: Result<Vec<TableColumn>, String>) -> Result<
    Seq<SpecTableColumn>,
    Seq<char>,
> {
    match r {
        Ok(v) => Ok(columns_view(v@)),
        Err(message) => Err(message@),
    }
}

/// What the result of reading a name stands for.
pub open spec fn name_view(r: Result<String, String>) -> Result<Seq<char>, Seq<char>> {
    match r {
        Ok(name) => Ok(name@),
        Err(message) => Err(message@),
    }
}

/// What the result of reading an optional condition stands for.
pub open spec fn condition_view(r: Result<Option<Expression>, String>) -> Result<
    Option<SpecExpression>,
    Seq<char>,
> {
    match r {
        Ok(Some(e)) => Ok(Some(e@)),
        Ok(None) => Ok(None),
        Err(message) => Err(message@),
    }
}

/// What the result of parsing a statement stands for.
pub open spec fn statement_view(r: Result<Statement, String>) -> Result<SpecStatement, Seq<char>> {
    match r {
        Ok(s) => Ok(s@),
        Err(message) => Err(message@),
    }
}

/// What the result of parsing a list of expressions stands for.
pub open spec fn expressions_result_view(r: Result<Vec<Expression>, String>) -> Result<
    Seq<SpecExpression>,
    Seq<char>,
> {
    match r {
        Ok(v) => Ok(expressions_view(v@)),
        Err(message) => Err(message@),
    }
}

/// What the result of a step that yields nothing stands for.
pub open spec fn unit_view(r: Result<(), String>) -> Result<(), Seq<char>> {
    match r {
        Ok(_) => Ok(()),
        Err(message) => Err(message@),
    }
}

} // verus!
