//! The syntax tree produced by parsing: expressions, column definitions,
//! and the two statement forms.

use vstd::prelude::*;

verus! {

/// Prefix operators. `Asc` and `Desc` wrap an `ORDER BY` expression to record
/// its sort direction; they never appear elsewhere.
#[derive(Clone, Copy, Debug, PartialEq, Eq, Structural)]
pub enum UnaryOperator {
    Minus,
    Plus,
    Not,
    Asc,
    Desc,
}

/// Infix operators, from arithmetic up to boolean connectives.
#[derive(Clone, Copy, Debug, PartialEq, Eq, Structural)]
pub enum BinaryOperator {
    Plus,
    Minus,
    Multiply,
    Divide,
    Equal,
    NotEqual,
    GreaterThan,
    GreaterThanOrEqual,
    LessThan,
    LessThanOrEqual,
    And,
    Or,
}

/// An expression tree node.
#[derive(Debug, PartialEq)]
pub enum Expression {
    Number(u64),
    String(String),
    Bool(bool),
    Identifier(String),
    UnaryOperation { operator: UnaryOperator, operand: Box<Expression> },
    BinaryOperation {
        left_operand: Box<Expression>,
        operator: BinaryOperator,
        right_operand: Box<Expression>,
    },
}

/// The mathematical value of an expression tree.
pub enum SpecExpression {
    Number(u64),
    String(Seq<char>),
    Bool(bool),
    Identifier(Seq<char>),
    UnaryOperation { operator: UnaryOperator, operand: Box<SpecExpression> },
    BinaryOperation {
        left_operand: Box<SpecExpression>,
        operator: BinaryOperator,
        right_operand: Box<SpecExpression>,
    },
}

pub open spec fn spec_expression_view(e: Expression) -> SpecExpression
    decreases e,
{
    match e {
        Expression::Number(n) => SpecExpression::Number(n),
        Expression::String(s) => SpecExpression::String(s@),
        Expression::Bool(b) => SpecExpression::Bool(b),
        Expression::Identifier(s) => SpecExpression::Identifier(s@),
        Expression::UnaryOperation { operator, operand } => SpecExpression::UnaryOperation {
            operator,
            operand: Box::new(spec_expression_view(*operand)),
        },
        Expression::BinaryOperation { left_operand, operator, right_operand } =>
            SpecExpression::BinaryOperation {
                left_operand: Box::new(spec_expression_view(*left_operand)),
                operator,
                right_operand: Box::new(spec_expression_view(*right_operand)),
            },
    }
}

impl View for Expression {
    type V = SpecExpression;

    open spec fn view(&self) -> SpecExpression {
        spec_expression_view(*self)
    }
}

/// The view of a sequence of expressions, element by element.
pub open spec fn spec_expressions_view(v: Seq<Expression>) -> Seq<SpecExpression> {
    v.map_values(|e: Expression| e@)
}

/// A column type. The `Varchar` payload is the declared maximum length.
#[derive(Clone, Copy, Debug, PartialEq, Eq, Structural)]
pub enum DBType {
    Int,
    Bool,
    Varchar(u64),
}

/// A column constraint. A column may repeat the same kind of constraint;
/// source order is preserved.
#[derive(Debug, PartialEq)]
pub enum Constraint {
    PrimaryKey,
    NotNull,
    Check(Expression),
}

/// The mathematical value of a constraint.
pub enum SpecConstraint {
    PrimaryKey,
    NotNull,
    Check(SpecExpression),
}

impl View for Constraint {
    type V = SpecConstraint;

    open spec fn view(&self) -> SpecConstraint {
        match self {
            Constraint::PrimaryKey => SpecConstraint::PrimaryKey,
            Constraint::NotNull => SpecConstraint::NotNull,
            Constraint::Check(e) => SpecConstraint::Check(e@),
        }
    }
}

/// One column definition of a `CREATE TABLE` statement.
#[derive(Debug, PartialEq)]
pub struct TableColumn {
    pub column_name: String,
    pub column_type: DBType,
    pub constraints: Vec<Constraint>,
}

/// The mathematical value of a column definition.
pub struct SpecTableColumn {
    pub column_name: Seq<char>,
    pub column_type: DBType,
    pub constraints: Seq<SpecConstraint>,
}

impl View for TableColumn {
    type V = SpecTableColumn;

    open spec fn view(&self) -> SpecTableColumn {
        SpecTableColumn {
            column_name: self.column_name@,
            column_type: self.column_type,
            constraints: self.constraints@.map_values(|c: Constraint| c@),
        }
    }
}

/// A parsed statement: either a query or a table definition.
#[derive(Debug, PartialEq)]
pub enum Statement {
    Select {
        columns: Vec<Expression>,
        from: String,
        where_clause: Option<Expression>,
        orderby: Vec<Expression>,
    },
    CreateTable { table_name: String, column_list: Vec<TableColumn> },
}

/// The mathematical value of a statement.
pub enum SpecStatement {
    Select {
        columns: Seq<SpecExpression>,
        from: Seq<char>,
        where_clause: Option<SpecExpression>,
        orderby: Seq<SpecExpression>,
    },
    CreateTable { table_name: Seq<char>, column_list: Seq<SpecTableColumn> },
}

impl View for Statement {
    type V = SpecStatement;

    open spec fn view(&self) -> SpecStatement {
        match self {
            Statement::Select { columns, from, where_clause, orderby } => SpecStatement::Select {
                columns: spec_expressions_view(columns@),
                from: from@,
                where_clause: match where_clause {
                    Some(e) => Some(e@),
                    None => None,
                },
                orderby: spec_expressions_view(orderby@),
            },
            Statement::CreateTable { table_name, column_list } => SpecStatement::CreateTable {
                table_name: table_name@,
                column_list: column_list@.map_values(|c: TableColumn| c@),
            },
        }
    }
}

} // verus!
