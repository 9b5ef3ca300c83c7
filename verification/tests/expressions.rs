use sql_syntax::pratt_parsing::{
    get_precedence, parse_binary_expression, parse_expression, parse_primary_expression,
    parse_unary_expression, peek_binary_operator,
};
use sql_syntax::sql_parser::Parser;
use sql_syntax::statement::{BinaryOperator, Expression, UnaryOperator};
use sql_syntax::token::{Keyword, Token};
use sql_syntax::tokenizer::tokenize;

fn parser_for(source: &str) -> Parser {
    Parser::new(tokenize(source).unwrap())
}

fn parse(source: &str) -> Result<Expression, String> {
    parse_expression(&mut parser_for(source))
}

fn num(n: u64) -> Expression {
    Expression::Number(n)
}

fn ident(name: &str) -> Expression {
    Expression::Identifier(name.to_string())
}

fn bin(left: Expression, operator: BinaryOperator, right: Expression) -> Expression {
    Expression::BinaryOperation {
        left_operand: Box::new(left),
        operator,
        right_operand: Box::new(right),
    }
}

fn neg(operand: Expression) -> Expression {
    Expression::UnaryOperation { operator: UnaryOperator::Minus, operand: Box::new(operand) }
}

#[test]
fn multiplication_binds_tighter_than_addition() {
    assert_eq!(
        parse("1 + 2 * 3"),
        Ok(bin(num(1), BinaryOperator::Plus, bin(num(2), BinaryOperator::Multiply, num(3))))
    );
    assert_eq!(
        parse("1 * 2 + 3"),
        Ok(bin(bin(num(1), BinaryOperator::Multiply, num(2)), BinaryOperator::Plus, num(3)))
    );
}

#[test]
fn subtraction_groups_to_the_left() {
    assert_eq!(
        parse("10 - 3 - 2"),
        Ok(bin(bin(num(10), BinaryOperator::Minus, num(3)), BinaryOperator::Minus, num(2)))
    );
    assert_eq!(
        parse("8 / 4 / 2"),
        Ok(bin(bin(num(8), BinaryOperator::Divide, num(4)), BinaryOperator::Divide, num(2)))
    );
}

#[test]
fn stacked_minus_signs_are_all_kept() {
    assert_eq!(parse("- - 5"), Ok(neg(neg(num(5)))));
    assert_eq!(parse("---x"), Ok(neg(neg(neg(ident("x"))))));
}

#[test]
fn plus_signs_are_dropped() {
    assert_eq!(parse("+5"), Ok(num(5)));
    assert_eq!(parse("++x"), Ok(ident("x")));
    assert_eq!(parse("+-+5"), Ok(neg(num(5))));
}

#[test]
fn a_sign_binds_tighter_than_any_binary_operator() {
    assert_eq!(
        parse("-a * b"),
        Ok(bin(neg(ident("a")), BinaryOperator::Multiply, ident("b")))
    );
    assert_eq!(
        parse("a - -b"),
        Ok(bin(ident("a"), BinaryOperator::Minus, neg(ident("b"))))
    );
}

#[test]
fn parentheses_override_precedence() {
    assert_eq!(
        parse("(1 + 2) * 3"),
        Ok(bin(bin(num(1), BinaryOperator::Plus, num(2)), BinaryOperator::Multiply, num(3)))
    );
    assert_eq!(
        parse("10 - (3 - 2)"),
        Ok(bin(num(10), BinaryOperator::Minus, bin(num(3), BinaryOperator::Minus, num(2))))
    );
    assert_eq!(parse("((x))"), Ok(ident("x")));
    assert_eq!(parse("-(a)"), Ok(neg(ident("a"))));
}

#[test]
fn the_whole_precedence_ladder() {
    let expected = bin(
        ident("a"),
        BinaryOperator::Or,
        bin(
            ident("b"),
            BinaryOperator::And,
            bin(
                ident("c"),
                BinaryOperator::Equal,
                bin(
                    ident("d"),
                    BinaryOperator::LessThan,
                    bin(
                        ident("e"),
                        BinaryOperator::Plus,
                        bin(ident("f"), BinaryOperator::Multiply, ident("g")),
                    ),
                ),
            ),
        ),
    );
    assert_eq!(parse("a OR b AND c = d < e + f * g"), Ok(expected));
    let reversed = bin(
        bin(
            bin(
                bin(
                    bin(
                        bin(ident("a"), BinaryOperator::Divide, ident("b")),
                        BinaryOperator::Minus,
                        ident("c"),
                    ),
                    BinaryOperator::GreaterThanOrEqual,
                    ident("d"),
                ),
                BinaryOperator::NotEqual,
                ident("e"),
            ),
            BinaryOperator::And,
            ident("f"),
        ),
        BinaryOperator::Or,
        ident("g"),
    );
    assert_eq!(parse("a / b - c >= d != e and f or g"), Ok(reversed));
}

#[test]
fn leaves_of_every_kind() {
    assert_eq!(parse("x"), Ok(ident("x")));
    assert_eq!(parse("42"), Ok(num(42)));
    assert_eq!(parse("'hi'"), Ok(Expression::String("hi".to_string())));
    assert_eq!(parse("TRUE"), Ok(Expression::Bool(true)));
    assert_eq!(parse("false"), Ok(Expression::Bool(false)));
}

#[test]
fn an_expression_stops_at_the_first_token_that_is_no_operator() {
    let mut parser = parser_for("a + b c");
    assert_eq!(
        parse_expression(&mut parser),
        Ok(bin(ident("a"), BinaryOperator::Plus, ident("b")))
    );
    assert_eq!(parser.peek(), &Token::Identifier("c".to_string()));
}

#[test]
fn star_between_operands_is_multiplication() {
    assert_eq!(parse("a * b"), Ok(bin(ident("a"), BinaryOperator::Multiply, ident("b"))));
}

#[test]
fn missing_operand_is_reported_with_the_token_found() {
    assert_eq!(
        parse(""),
        Err("Unexpected token Eof - expected primary expression".to_string())
    );
    assert_eq!(
        parse("1 +"),
        Err("Unexpected token Eof - expected primary expression".to_string())
    );
    assert_eq!(
        parse("* 2"),
        Err("Unexpected token Star - expected primary expression".to_string())
    );
    assert_eq!(
        parse("1 + FROM"),
        Err("Unexpected token Keyword(From) - expected primary expression".to_string())
    );
    assert_eq!(
        parse("#"),
        Err("Unexpected token Invalid('#') - expected primary expression".to_string())
    );
    assert_eq!(
        parse("()"),
        Err("Unexpected token RightParentheses - expected primary expression".to_string())
    );
}

#[test]
fn unclosed_parenthesis_is_reported_with_the_token_found() {
    assert_eq!(parse("(1 + 2"), Err("Expected ')' after expression, found Eof".to_string()));
    assert_eq!(
        parse("(a b)"),
        Err("Expected ')' after expression, found Identifier(\"b\")".to_string())
    );
    assert_eq!(
        parse("(1 ; 2)"),
        Err("Expected ')' after expression, found Semicolon".to_string())
    );
    assert_eq!(
        parse("(1 2)"),
        Err("Expected ')' after expression, found Number(2)".to_string())
    );
}

#[test]
fn binary_parse_stops_below_its_threshold() {
    let mut parser = parser_for("1 * 2 + 3");
    assert_eq!(
        parse_binary_expression(&mut parser, 6),
        Ok(bin(num(1), BinaryOperator::Multiply, num(2)))
    );
    assert_eq!(parser.peek(), &Token::Plus);

    let mut parser = parser_for("1 + 2");
    assert_eq!(parse_binary_expression(&mut parser, 7), Ok(num(1)));
    assert_eq!(parser.peek(), &Token::Plus);

    let mut parser = parser_for("1 + 2 and 3");
    assert_eq!(
        parse_binary_expression(&mut parser, 5),
        Ok(bin(num(1), BinaryOperator::Plus, num(2)))
    );
    assert_eq!(parser.peek(), &Token::Keyword(Keyword::And));
}

#[test]
fn unary_parse_reads_one_operand() {
    let mut parser = parser_for("-a + b");
    assert_eq!(parse_unary_expression(&mut parser), Ok(neg(ident("a"))));
    assert_eq!(parser.peek(), &Token::Plus);
}

#[test]
fn primary_parse_consumes_exactly_one_token_for_a_leaf() {
    let mut parser = parser_for("a b");
    assert_eq!(parse_primary_expression(&mut parser), Ok(ident("a")));
    assert_eq!(parser.peek(), &Token::Identifier("b".to_string()));
}

#[test]
fn primary_parse_consumes_the_token_it_rejects() {
    let mut parser = parser_for("- a");
    assert_eq!(
        parse_primary_expression(&mut parser),
        Err("Unexpected token Minus - expected primary expression".to_string())
    );
    assert_eq!(parser.peek(), &Token::Identifier("a".to_string()));
}

#[test]
fn peek_binary_operator_maps_every_operator_token() {
    let cases = vec![
        ("=", BinaryOperator::Equal),
        ("==", BinaryOperator::Equal),
        ("!=", BinaryOperator::NotEqual),
        (">", BinaryOperator::GreaterThan),
        (">=", BinaryOperator::GreaterThanOrEqual),
        ("<", BinaryOperator::LessThan),
        ("<=", BinaryOperator::LessThanOrEqual),
        ("+", BinaryOperator::Plus),
        ("-", BinaryOperator::Minus),
        ("*", BinaryOperator::Multiply),
        ("/", BinaryOperator::Divide),
        ("and", BinaryOperator::And),
        ("or", BinaryOperator::Or),
    ];
    for (source, operator) in cases {
        let parser = parser_for(source);
        assert_eq!(peek_binary_operator(&parser), Some(operator));
        assert_eq!(peek_binary_operator(&parser), Some(operator));
    }
    for source in ["", "a", "1", "(", ")", ",", ";", "not", "'s'"] {
        assert_eq!(peek_binary_operator(&parser_for(source)), None);
    }
}

#[test]
fn precedence_table() {
    assert_eq!(get_precedence(&BinaryOperator::Or), 1);
    assert_eq!(get_precedence(&BinaryOperator::And), 2);
    assert_eq!(get_precedence(&BinaryOperator::Equal), 3);
    assert_eq!(get_precedence(&BinaryOperator::NotEqual), 3);
    assert_eq!(get_precedence(&BinaryOperator::GreaterThan), 4);
    assert_eq!(get_precedence(&BinaryOperator::GreaterThanOrEqual), 4);
    assert_eq!(get_precedence(&BinaryOperator::LessThan), 4);
    assert_eq!(get_precedence(&BinaryOperator::LessThanOrEqual), 4);
    assert_eq!(get_precedence(&BinaryOperator::Plus), 5);
    assert_eq!(get_precedence(&BinaryOperator::Minus), 5);
    assert_eq!(get_precedence(&BinaryOperator::Multiply), 6);
    assert_eq!(get_precedence(&BinaryOperator::Divide), 6);
}

#[test]
fn cloning_an_expression_gives_an_equal_tree() {
    let tree = parse("-(a + 1) * 'x' or true").unwrap();
    assert_eq!(tree.clone(), tree);
}
