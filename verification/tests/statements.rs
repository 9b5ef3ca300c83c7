use sql_syntax::sql_parser::Parser;
use sql_syntax::statement::{
    BinaryOperator, Constraint, DBType, Expression, Statement, TableColumn, UnaryOperator,
};
use sql_syntax::token::{Keyword, Token};
use sql_syntax::tokenizer::tokenize;

fn parse(source: &str) -> Result<Statement, String> {
    Parser::new(tokenize(source).unwrap()).parse()
}

fn failure(source: &str) -> String {
    parse(source).unwrap_err()
}

fn num(n: u64) -> Expression {
    Expression::Number(n)
}

fn ident(name: &str) -> Expression {
    Expression::Identifier(name.to_string())
}

fn bin(left: Expression, operator: BinaryOperator, right: Expression) -> Expression {
    Expression::BinaryOperation {
        left_operand: Box::new(left),
        operator,
        right_operand: Box::new(right),
    }
}

fn marked(operator: UnaryOperator, operand: Expression) -> Expression {
    Expression::UnaryOperation { operator, operand: Box::new(operand) }
}

fn select(columns: Vec<Expression>, from: &str) -> Statement {
    Statement::Select { columns, from: from.to_string(), where_clause: None, orderby: vec![] }
}

fn column(name: &str, column_type: DBType, constraints: Vec<Constraint>) -> TableColumn {
    TableColumn { column_name: name.to_string(), column_type, constraints }
}

fn create(name: &str, column_list: Vec<TableColumn>) -> Statement {
    Statement::CreateTable { table_name: name.to_string(), column_list }
}

#[test]
fn select_star_is_the_wildcard() {
    assert_eq!(parse("SELECT * FROM t;"), Ok(select(vec![Expression::AllColumns], "t")));
}

#[test]
fn select_star_between_operands_is_multiplication() {
    assert_eq!(
        parse("SELECT a * b FROM t;"),
        Ok(select(vec![bin(ident("a"), BinaryOperator::Multiply, ident("b"))], "t"))
    );
}

#[test]
fn select_list_mixes_wildcard_and_expressions() {
    assert_eq!(
        parse("SELECT *, a, 1 + 2 FROM t;"),
        Ok(select(
            vec![Expression::AllColumns, ident("a"), bin(num(1), BinaryOperator::Plus, num(2))],
            "t"
        ))
    );
}

#[test]
fn select_with_where() {
    assert_eq!(
        parse("SELECT a FROM t WHERE a > 1 AND b = 'x';"),
        Ok(Statement::Select {
            columns: vec![ident("a")],
            from: "t".to_string(),
            where_clause: Some(bin(
                bin(ident("a"), BinaryOperator::GreaterThan, num(1)),
                BinaryOperator::And,
                bin(ident("b"), BinaryOperator::Equal, Expression::String("x".to_string())),
            )),
            orderby: vec![],
        })
    );
}

#[test]
fn order_by_wraps_terms_in_their_direction() {
    assert_eq!(
        parse("SELECT a FROM t ORDER BY a DESC, b;"),
        Ok(Statement::Select {
            columns: vec![ident("a")],
            from: "t".to_string(),
            where_clause: None,
            orderby: vec![marked(UnaryOperator::Desc, ident("a")), ident("b")],
        })
    );
    assert_eq!(
        parse("SELECT a FROM t ORDER BY a + 1 ASC, -b DESC, c ASC;"),
        Ok(Statement::Select {
            columns: vec![ident("a")],
            from: "t".to_string(),
            where_clause: None,
            orderby: vec![
                marked(UnaryOperator::Asc, bin(ident("a"), BinaryOperator::Plus, num(1))),
                marked(UnaryOperator::Desc, marked(UnaryOperator::Minus, ident("b"))),
                marked(UnaryOperator::Asc, ident("c")),
            ],
        })
    );
}

#[test]
fn select_with_where_and_order_by() {
    assert_eq!(
        parse("select name from users where age >= 18 order by name;"),
        Ok(Statement::Select {
            columns: vec![ident("name")],
            from: "users".to_string(),
            where_clause: Some(bin(ident("age"), BinaryOperator::GreaterThanOrEqual, num(18))),
            orderby: vec![ident("name")],
        })
    );
}

#[test]
fn statements_may_span_lines() {
    assert_eq!(
        parse("SELECT a,\n\tb\nFROM t\n;"),
        Ok(select(vec![ident("a"), ident("b")], "t"))
    );
}

#[test]
fn missing_semicolon_is_an_error() {
    assert_eq!(failure("SELECT a FROM t"), "Expected semicolon, found Eof");
    assert_eq!(failure("SELECT a FROM t WHERE a = 1"), "Expected semicolon, found Eof");
    assert_eq!(
        failure("SELECT a FROM t u;"),
        "Expected semicolon, found Identifier(\"u\")"
    );
    assert_eq!(failure("CREATE TABLE t (a INT)"), "Expected semicolon, found Eof");
}

#[test]
fn trailing_comma_before_from_is_an_error() {
    assert_eq!(failure("SELECT a, FROM t;"), "Trailing comma before FROM is not allowed");
    assert_eq!(failure("SELECT *, FROM t;"), "Trailing comma before FROM is not allowed");
}

#[test]
fn select_needs_at_least_one_column() {
    assert_eq!(failure("SELECT FROM t;"), "Expected at least one column before FROM");
}

#[test]
fn column_must_be_followed_by_comma_or_from() {
    assert_eq!(failure("SELECT a b FROM t;"), "Expected ',' or FROM, found Identifier(\"b\")");
    assert_eq!(failure("SELECT a;"), "Expected ',' or FROM, found Semicolon");
    assert_eq!(failure("SELECT * * FROM t;"), "Expected ',' or FROM, found Star");
    assert_eq!(failure("SELECT a"), "Expected ',' or FROM, found Eof");
}

#[test]
fn a_star_after_a_comma_is_the_wildcard_again() {
    assert_eq!(
        parse("SELECT a, * FROM t;"),
        Ok(select(vec![ident("a"), Expression::AllColumns], "t"))
    );
}

#[test]
fn from_needs_a_table_name() {
    assert_eq!(failure("SELECT a FROM;"), "Expected table name after FROM");
    assert_eq!(failure("SELECT a FROM 1;"), "Expected table name after FROM");
    assert_eq!(failure("SELECT a FROM select;"), "Expected table name after FROM");
}

#[test]
fn order_needs_by() {
    assert_eq!(
        failure("SELECT a FROM t ORDER a;"),
        "Expected keyword By, got Identifier(\"a\")"
    );
    assert_eq!(failure("SELECT a FROM t ORDER"), "Expected keyword By, got Eof");
}

#[test]
fn order_by_needs_a_term_after_each_comma() {
    assert_eq!(
        failure("SELECT a FROM t ORDER BY;"),
        "Unexpected token Semicolon - expected primary expression"
    );
    assert_eq!(
        failure("SELECT a FROM t ORDER BY a,;"),
        "Unexpected token Semicolon - expected primary expression"
    );
    assert_eq!(
        failure("SELECT a FROM t ORDER BY a ASC DESC;"),
        "Expected semicolon, found Keyword(Desc)"
    );
}

#[test]
fn errors_inside_expressions_surface_unchanged() {
    assert_eq!(
        failure("SELECT (a FROM t;"),
        "Expected ')' after expression, found Keyword(From)"
    );
    assert_eq!(
        failure("SELECT a FROM t WHERE;"),
        "Unexpected token Semicolon - expected primary expression"
    );
    assert_eq!(
        failure("SELECT a + FROM t;"),
        "Unexpected token Keyword(From) - expected primary expression"
    );
}

#[test]
fn invalid_characters_are_rejected_by_the_parser() {
    assert_eq!(
        failure("SELECT # FROM t;"),
        "Unexpected token Invalid('#') - expected primary expression"
    );
    assert_eq!(failure("SELECT a FROM t #;"), "Expected semicolon, found Invalid('#')");
}

#[test]
fn only_select_and_create_start_a_statement() {
    assert_eq!(failure(""), "Expected SELECT or CREATE statement");
    assert_eq!(failure(";"), "Expected SELECT or CREATE statement");
    assert_eq!(failure("INSERT INTO t;"), "Expected SELECT or CREATE statement");
    assert_eq!(failure("FROM t SELECT a;"), "Expected SELECT or CREATE statement");
}

#[test]
fn create_table_with_two_columns() {
    assert_eq!(
        parse("CREATE TABLE users (id INT PRIMARY KEY, name VARCHAR(50) NOT NULL);"),
        Ok(create(
            "users",
            vec![
                column("id", DBType::Int, vec![Constraint::PrimaryKey]),
                column("name", DBType::Varchar(50), vec![Constraint::NotNull]),
            ]
        ))
    );
}

#[test]
fn varchar_without_length_defaults_to_255() {
    assert_eq!(
        parse("CREATE TABLE t (a VARCHAR, b VARCHAR NOT NULL, c VARCHAR(0));"),
        Ok(create(
            "t",
            vec![
                column("a", DBType::Varchar(255), vec![]),
                column("b", DBType::Varchar(255), vec![Constraint::NotNull]),
                column("c", DBType::Varchar(0), vec![]),
            ]
        ))
    );
}

#[test]
fn constraints_come_in_any_order_and_number() {
    assert_eq!(
        parse(
            "create table t (a bool not null primary key not null, \
             b int check (b > 0) check (b < 10) primary key);"
        ),
        Ok(create(
            "t",
            vec![
                column(
                    "a",
                    DBType::Bool,
                    vec![Constraint::NotNull, Constraint::PrimaryKey, Constraint::NotNull]
                ),
                column(
                    "b",
                    DBType::Int,
                    vec![
                        Constraint::Check(bin(ident("b"), BinaryOperator::GreaterThan, num(0))),
                        Constraint::Check(bin(ident("b"), BinaryOperator::LessThan, num(10))),
                        Constraint::PrimaryKey,
                    ]
                ),
            ]
        ))
    );
}

#[test]
fn create_needs_table_name_and_parenthesis() {
    assert_eq!(failure("CREATE t (a INT);"), "Expected keyword Table, got Identifier(\"t\")");
    assert_eq!(failure("CREATE TABLE (a INT);"), "Expected table name after CREATE TABLE");
    assert_eq!(
        failure("CREATE TABLE t a INT;"),
        "Expected token LeftParentheses, got Identifier(\"a\")"
    );
    assert_eq!(failure("CREATE TABLE t;"), "Expected token LeftParentheses, got Semicolon");
}

#[test]
fn column_definition_errors() {
    assert_eq!(failure("CREATE TABLE t (1 INT);"), "Expected column name");
    assert_eq!(failure("CREATE TABLE t (INT);"), "Expected column name");
    assert_eq!(failure("CREATE TABLE t (a);"), "Expected column type (INT, BOOL, VARCHAR)");
    assert_eq!(
        failure("CREATE TABLE t (a TEXT);"),
        "Expected column type (INT, BOOL, VARCHAR)"
    );
    assert_eq!(failure("CREATE TABLE t (a VARCHAR(x));"), "Expected number in VARCHAR(n)");
    assert_eq!(failure("CREATE TABLE t (a VARCHAR());"), "Expected number in VARCHAR(n)");
    assert_eq!(
        failure("CREATE TABLE t (a VARCHAR(5;"),
        "Expected token RightParentheses, got Semicolon"
    );
    assert_eq!(
        failure("CREATE TABLE t (a INT b INT);"),
        "Expected ',' or ')' in column definition list"
    );
    assert_eq!(failure("CREATE TABLE t (a INT"), "Expected ',' or ')' in column definition list");
}

#[test]
fn constraint_errors() {
    assert_eq!(
        failure("CREATE TABLE t (a INT NOT);"),
        "Expected keyword Null, got RightParentheses"
    );
    assert_eq!(
        failure("CREATE TABLE t (a INT PRIMARY);"),
        "Expected keyword Key, got RightParentheses"
    );
    assert_eq!(
        failure("CREATE TABLE t (a INT PRIMARY NULL);"),
        "Expected keyword Key, got Keyword(Null)"
    );
    assert_eq!(
        failure("CREATE TABLE t (a INT CHECK a > 0);"),
        "Expected token LeftParentheses, got Identifier(\"a\")"
    );
    assert_eq!(
        failure("CREATE TABLE t (a INT CHECK (a > 0;"),
        "Expected token RightParentheses, got Semicolon"
    );
    assert_eq!(
        failure("CREATE TABLE t (a INT CHECK ());"),
        "Unexpected token RightParentheses - expected primary expression"
    );
}

#[test]
fn a_column_list_without_columns_is_rejected() {
    assert_eq!(failure("CREATE TABLE t ();"), "Expected semicolon, found RightParentheses");
    assert_eq!(
        failure("CREATE TABLE t (a INT, );"),
        "Expected semicolon, found RightParentheses"
    );
}

#[test]
fn parsing_the_same_tokens_twice_gives_the_same_tree() {
    for source in [
        "SELECT a, b * 2 FROM t WHERE a = 1 ORDER BY b DESC;",
        "CREATE TABLE t (a INT CHECK (a > 0), b VARCHAR(3) NOT NULL);",
        "SELECT a, FROM t;",
        "SELECT a FROM t",
    ] {
        let tokens = tokenize(source).unwrap();
        let first = Parser::new(tokens.clone()).parse();
        let second = Parser::new(tokens).parse();
        assert_eq!(first, second);
    }
}

#[test]
fn a_parser_reads_one_statement_per_call() {
    let tokens = tokenize("SELECT a FROM t; CREATE TABLE u (b BOOL); x").unwrap();
    let mut parser = Parser::new(tokens);
    assert_eq!(parser.parse(), Ok(select(vec![ident("a")], "t")));
    assert_eq!(parser.parse(), Ok(create("u", vec![column("b", DBType::Bool, vec![])])));
    assert_eq!(parser.parse(), Err("Expected SELECT or CREATE statement".to_string()));
    assert_eq!(parser.peek(), &Token::Identifier("x".to_string()));
}

#[test]
fn peek_and_advance_return_eof_once_the_tokens_are_used_up() {
    let mut parser = Parser::new(vec![Token::Comma, Token::Number(1)]);
    assert_eq!(parser.peek(), &Token::Comma);
    assert_eq!(parser.peek(), &Token::Comma);
    assert_eq!(parser.advance(), &Token::Comma);
    assert_eq!(parser.advance(), &Token::Number(1));
    assert_eq!(parser.peek(), &Token::Eof);
    assert_eq!(parser.advance(), &Token::Eof);
    assert_eq!(parser.advance(), &Token::Eof);
    assert_eq!(parser.peek(), &Token::Eof);
}

#[test]
fn a_parser_over_no_tokens_sees_eof() {
    let mut parser = Parser::new(vec![]);
    assert_eq!(parser.peek(), &Token::Eof);
    assert_eq!(parser.parse(), Err("Expected SELECT or CREATE statement".to_string()));
}

#[test]
fn match_token_compares_kinds_only() {
    let parser = Parser::new(vec![Token::Number(7)]);
    assert!(parser.match_token(Token::Number(0)));
    assert!(!parser.match_token(Token::Identifier("7".to_string())));
    let parser = Parser::new(vec![Token::Keyword(Keyword::From)]);
    assert!(parser.match_token(Token::Keyword(Keyword::Select)));
    assert!(parser.match_keyword(Keyword::From));
    assert!(!parser.match_keyword(Keyword::Select));
}

#[test]
fn expect_helpers_consume_only_on_a_match() {
    let mut parser = Parser::new(tokenize("FROM ( ;").unwrap());
    assert_eq!(
        parser.expect_keyword_any_line(Keyword::Where),
        Err("Expected keyword Where, got Keyword(From)".to_string())
    );
    assert_eq!(parser.expect_keyword_any_line(Keyword::From), Ok(()));
    assert_eq!(
        parser.expect_token_any_line(Token::Comma),
        Err("Expected token Comma, got LeftParentheses".to_string())
    );
    assert_eq!(
        parser.expect_semicolon(),
        Err("Expected semicolon, found LeftParentheses".to_string())
    );
    assert_eq!(parser.expect_token_any_line(Token::LeftParentheses), Ok(()));
    assert_eq!(parser.expect_semicolon(), Ok(()));
    assert_eq!(parser.peek(), &Token::Eof);
}

#[test]
fn cloning_a_statement_gives_an_equal_statement() {
    for source in [
        "SELECT *, a + 1 FROM t WHERE a = 'x' ORDER BY a DESC, b;",
        "CREATE TABLE t (a INT PRIMARY KEY CHECK (a > 0), b VARCHAR(3) NOT NULL, c BOOL);",
    ] {
        let statement = parse(source).unwrap();
        assert_eq!(statement.clone(), statement);
    }
    let token = Token::String("x".to_string());
    assert_eq!(token.clone(), token);
}

#[test]
fn varchar_length_may_be_as_large_as_a_number_token() {
    assert_eq!(
        parse("CREATE TABLE t (a VARCHAR(4294967295));"),
        Ok(create("t", vec![column("a", DBType::Varchar(4294967295), vec![])]))
    );
}

#[test]
fn expect_token_wants_the_same_content_too() {
    let mut parser = Parser::new(vec![Token::Number(1), Token::Identifier("a".to_string())]);
    assert_eq!(
        parser.expect_token_any_line(Token::Number(2)),
        Err("Expected token Number(2), got Number(1)".to_string())
    );
    assert_eq!(parser.peek(), &Token::Number(1));
    assert_eq!(parser.expect_token_any_line(Token::Number(1)), Ok(()));
    assert_eq!(
        parser.expect_token_any_line(Token::Identifier("b".to_string())),
        Err("Expected token Identifier(\"b\"), got Identifier(\"a\")".to_string())
    );
    assert_eq!(
        parser.expect_token_any_line(Token::String("a".to_string())),
        Err("Expected token String(\"a\"), got Identifier(\"a\")".to_string())
    );
    assert_eq!(parser.expect_token_any_line(Token::Identifier("a".to_string())), Ok(()));
    assert_eq!(
        parser.expect_token_any_line(Token::Keyword(Keyword::From)),
        Err("Expected token Keyword(From), got Eof".to_string())
    );
    assert_eq!(parser.expect_token_any_line(Token::Eof), Ok(()));
    assert_eq!(parser.peek(), &Token::Eof);

    let mut parser = Parser::new(vec![Token::Keyword(Keyword::Select), Token::Invalid('#')]);
    assert_eq!(
        parser.expect_token_any_line(Token::Keyword(Keyword::Create)),
        Err("Expected token Keyword(Create), got Keyword(Select)".to_string())
    );
    assert_eq!(parser.expect_token_any_line(Token::Keyword(Keyword::Select)), Ok(()));
    assert_eq!(
        parser.expect_token_any_line(Token::Invalid('$')),
        Err("Expected token Invalid('$'), got Invalid('#')".to_string())
    );
    assert_eq!(parser.expect_token_any_line(Token::Invalid('#')), Ok(()));
}

#[test]
fn same_as_compares_kind_and_content() {
    let tokens = vec![
        Token::LeftParentheses,
        Token::RightParentheses,
        Token::Comma,
        Token::Semicolon,
        Token::Plus,
        Token::Minus,
        Token::Star,
        Token::Divide,
        Token::Equal,
        Token::NotEqual,
        Token::GreaterThan,
        Token::GreaterThanOrEqual,
        Token::LessThan,
        Token::LessThanOrEqual,
        Token::Number(1),
        Token::Number(2),
        Token::String("a".to_string()),
        Token::String("b".to_string()),
        Token::Identifier("a".to_string()),
        Token::Identifier("b".to_string()),
        Token::Keyword(Keyword::Select),
        Token::Keyword(Keyword::From),
        Token::Invalid('#'),
        Token::Invalid('$'),
        Token::Eof,
    ];
    for (i, a) in tokens.iter().enumerate() {
        for (j, b) in tokens.iter().enumerate() {
            assert_eq!(a.same_as(b), i == j);
            assert_eq!(a.same_as(b), a == b);
        }
    }
}
