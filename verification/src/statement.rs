//! Syntax trees: expressions, statements and column definitions, each with
//! the mathematical model that the contracts speak of.

use vstd::prelude::*;

verus! {

/// The binary operators, from loosest to tightest binding.
#[derive(Debug, Clone, Copy, PartialEq, Eq, Structural)]
pub enum BinaryOperator {
    Or,
    And,
    Equal,
    NotEqual,
    GreaterThan,
    GreaterThanOrEqual,
    LessThan,
    LessThanOrEqual,
    Plus,
    Minus,
    Multiply,
    Divide,
}

/// Arithmetic negation, and the two markers that annotate a sort term with
/// its direction.
#[derive(Debug, Clone, Copy, PartialEq, Eq, Structural)]
pub enum UnaryOperator {
    Minus,
    Asc,
    Desc,
}

/// An expression tree. Every node owns its operands.
#[allow(inconsistent_fields)]
#[derive(Debug, PartialEq)]
pub enum Expression {
    Identifier(String),
    Number(u64),
    String(String),
    Bool(bool),
    /// The `*` of a column list.
    AllColumns,
    UnaryOperation { operator: UnaryOperator, operand: Box<Expression> },
    BinaryOperation {
        left_operand: Box<Expression>,
        operator: BinaryOperator,
        right_operand: Box<Expression>,
    },
}

/// What an [`Expression`] stands for.
#[allow(inconsistent_fields)]
pub enum SpecExpression {
    Identifier(Seq<char>),
    Number(u64),
    String(Seq<char>),
    Bool(bool),
    AllColumns,
    UnaryOperation { operator: UnaryOperator, operand: Box<SpecExpression> },
    BinaryOperation {
        left_operand: Box<SpecExpression>,
        operator: BinaryOperator,
        right_operand: Box<SpecExpression>,
    },
}

impl View for Expression {
    type V = SpecExpression;

    open spec fn view(&self) -> SpecExpression
        decreases self,
    {
        match self {
            Expression::Identifier(name) => SpecExpression::Identifier(name@),
            Expression::Number(n) => SpecExpression::Number(*n),
            Expression::String(s) => SpecExpression::String(s@),
            Expression::Bool(b) => SpecExpression::Bool(*b),
            Expression::AllColumns => SpecExpression::AllColumns,
            Expression::UnaryOperation { operator, operand } => SpecExpression::UnaryOperation {
                operator: *operator,
                operand: Box::new((**operand).view()),
            },
            Expression::BinaryOperation {
                left_operand,
                operator,
                right_operand,
            } => SpecExpression::BinaryOperation {
                left_operand: Box::new((**left_operand).view()),
                operator: *operator,
                right_operand: Box::new((**right_operand).view()),
            },
        }
    }
}

impl Clone for Expression {
    fn clone(&self) -> (res: Self)
        ensures
            res@ == self@,
        decreases self,
    {
        match self {
            Expression::Identifier(name) => Expression::Identifier(name.clone()),
            Expression::Number(n) => Expression::Number(*n),
            Expression::String(s) => Expression::String(s.clone()),
            Expression::Bool(b) => Expression::Bool(*b),
            Expression::AllColumns => Expression::AllColumns,
            Expression::UnaryOperation { operator, operand } => Expression::UnaryOperation {
                operator: *operator,
                operand: Box::new((&**operand).clone()),
            },
            Expression::BinaryOperation {
                left_operand,
                operator,
                right_operand,
            } => Expression::BinaryOperation {
                left_operand: Box::new((&**left_operand).clone()),
                operator: *operator,
                right_operand: Box::new((&**right_operand).clone()),
            },
        }
    }
}

/// The model of a sequence of expressions.
pub open spec fn expressions_view(expressions: Seq<Expression>) -> Seq<SpecExpression> {
    expressions.map_values(|e: Expression| e@)
}

/// A copy of a list of expressions.
pub fn clone_expressions(expressions: &Vec<Expression>) -> (res: Vec<Expression>)
    ensures
        expressions_view(res@) == expressions_view(expressions@),
{
    let mut res: Vec<Expression> = Vec::new();
    let mut i: usize = 0;
    while i < expressions.len()
        invariant
            i <= expressions.len(),
            expressions_view(res@) == expressions_view(expressions@.take(i as int)),
        decreases expressions.len() - i,
    {
        let ghost before = expressions_view(res@);
        res.push(expressions[i].clone());
        i += 1;
        proof {
            assert(expressions_view(res@) =~= before.push(expressions@[i - 1]@));
            assert(expressions_view(expressions@.take(i as int)) =~= before.push(
                expressions@[i - 1]@,
            ));
        }
    }
    proof {
        assert(expressions@.take(i as int) =~= expressions@);
    }
    res
}

/// The type of a table column.
#[derive(Debug, Clone, Copy, PartialEq, Eq, Structural)]
pub enum DBType {
    Int,
    Bool,
    /// Text of at most the given length.
    Varchar(usize),
}

/// A rule attached to a table column.
#[derive(Debug, PartialEq)]
pub enum Constraint {
    NotNull,
    PrimaryKey,
    Check(Expression),
}

/// What a [`Constraint`] stands for.
pub enum SpecConstraint {
    NotNull,
    PrimaryKey,
    Check(SpecExpression),
}

impl View for Constraint {
    type V = SpecConstraint;

    open spec fn view(&self) -> SpecConstraint {
        match self {
            Constraint::NotNull => SpecConstraint::NotNull,
            Constraint::PrimaryKey => SpecConstraint::PrimaryKey,
            Constraint::Check(e) => SpecConstraint::Check(e@),
        }
    }
}

impl Clone for Constraint {
    fn clone(&self) -> (res: Self)
        ensures
            res@ == self@,
    {
        match self {
            Constraint::NotNull => Constraint::NotNull,
            Constraint::PrimaryKey => Constraint::PrimaryKey,
            Constraint::Check(e) => Constraint::Check(e.clone()),
        }
    }
}

/// The model of a sequence of constraints.
pub open spec fn constraints_view(constraints: Seq<Constraint>) -> Seq<SpecConstraint> {
    constraints.map_values(|c: Constraint| c@)
}

/// A copy of a list of constraints.
pub fn clone_constraints(constraints: &Vec<Constraint>) -> (res: Vec<Constraint>)
    ensures
        constraints_view(res@) == constraints_view(constraints@),
{
    let mut res: Vec<Constraint> = Vec::new();
    let mut i: usize = 0;
    while i < constraints.len()
        invariant
            i <= constraints.len(),
            constraints_view(res@) == constraints_view(constraints@.take(i as int)),
        decreases constraints.len() - i,
    {
        let ghost before = constraints_view(res@);
        res.push(constraints[i].clone());
        i += 1;
        proof {
            assert(constraints_view(res@) =~= before.push(constraints@[i - 1]@));
            assert(constraints_view(constraints@.take(i as int)) =~= before.push(
                constraints@[i - 1]@,
            ));
        }
    }
    proof {
        assert(constraints@.take(i as int) =~= constraints@);
    }
    res
}

/// One column of a `CREATE TABLE` statement.
#[derive(Debug, PartialEq)]
pub struct TableColumn {
    pub column_name: String,
    pub column_type: DBType,
    pub constraints: Vec<Constraint>,
}

/// What a [`TableColumn`] stands for.
pub struct SpecTableColumn {
    pub column_name: Seq<char>,
    pub column_type: DBType,
    pub constraints: Seq<SpecConstraint>,
}

impl View for TableColumn {
    type V = SpecTableColumn;

    open spec fn view(&self) -> SpecTableColumn {
        SpecTableColumn {
            column_name: self.column_name@,
            column_type: self.column_type,
            constraints: constraints_view(self.constraints@),
        }
    }
}

impl Clone for TableColumn {
    fn clone(&self) -> (res: Self)
        ensures
            res@ == self@,
    {
        TableColumn {
            column_name: self.column_name.clone(),
            column_type: self.column_type,
            constraints: clone_constraints(&self.constraints),
        }
    }
}

/// The model of a sequence of column definitions.
pub open spec fn columns_view(columns: Seq<TableColumn>) -> Seq<SpecTableColumn> {
    columns.map_values(|c: TableColumn| c@)
}

/// A copy of a list of column definitions.
pub fn clone_columns(columns: &Vec<TableColumn>) -> (res: Vec<TableColumn>)
    ensures
        columns_view(res@) == columns_view(columns@),
{
    let mut res: Vec<TableColumn> = Vec::new();
    let mut i: usize = 0;
    while i < columns.len()
        invariant
            i <= columns.len(),
            columns_view(res@) == columns_view(columns@.take(i as int)),
        decreases columns.len() - i,
    {
        let ghost before = columns_view(res@);
        res.push(columns[i].clone());
        i += 1;
        proof {
            assert(columns_view(res@) =~= before.push(columns@[i - 1]@));
            assert(columns_view(columns@.take(i as int)) =~= before.push(columns@[i - 1]@));
        }
    }
    proof {
        assert(columns@.take(i as int) =~= columns@);
    }
    res
}

/// A parsed statement.
#[derive(Debug, PartialEq)]
pub enum Statement {
    Select {
        columns: Vec<Expression>,
        from: String,
        where_clause: Option<Expression>,
        orderby: Vec<Expression>,
    },
    CreateTable { table_name: String, column_list: Vec<TableColumn> },
}

/// What a [`Statement`] stands for.
pub enum SpecStatement {
    Select {
        columns: Seq<SpecExpression>,
        from: Seq<char>,
        where_clause: Option<SpecExpression>,
        orderby: Seq<SpecExpression>,
    },
    CreateTable { table_name: Seq<char>, column_list: Seq<SpecTableColumn> },
}

impl View for Statement {
    type V = SpecStatement;

    open spec fn view(&self) -> SpecStatement {
        match self {
            Statement::Select { columns, from, where_clause, orderby } => SpecStatement::Select {
                columns: expressions_view(columns@),
                from: from@,
                where_clause: match where_clause {
                    Some(e) => Some(e@),
                    None => None,
                },
                orderby: expressions_view(orderby@),
            },
            Statement::CreateTable { table_name, column_list } => SpecStatement::CreateTable {
                table_name: table_name@,
                column_list: columns_view(column_list@),
            },
        }
    }
}

impl Clone for Statement {
    fn clone(&self) -> (res: Self)
        ensures
            res@ == self@,
    {
        match self {
            Statement::Select { columns, from, where_clause, orderby } => Statement::Select {
                columns: clone_expressions(columns),
                from: from.clone(),
                where_clause: match where_clause {
                    Some(e) => Some(e.clone()),
                    None => None,
                },
                orderby: clone_expressions(orderby),
            },
            Statement::CreateTable { table_name, column_list } => Statement::CreateTable {
                table_name: table_name.clone(),
                column_list: clone_columns(column_list),
            },
        }
    }
}

} // verus!
