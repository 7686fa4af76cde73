//! The parts of a parsed SQL statement that the engine reads.
//!
//! A SQL parser yields a large syntax tree; whoever embeds the engine copies
//! from it what stands here and marks the rest as unsupported. Names are held
//! as plain text, without their quoting.

use vstd::prelude::*;

verus! {

/// A literal as the parser found it.
#[derive(Debug, PartialEq, Eq)]
pub enum Literal {
    /// A number, as its text in the statement.
    Number(String),
    SingleQuotedString(String),
    DoubleQuotedString(String),
    Boolean(bool),
    Null,
    /// Any other kind of literal, with a rendering of it for diagnostics.
    Unsupported(String),
}

/// The operator of a binary expression.
#[derive(Debug, PartialEq, Eq)]
pub enum BinaryOperator {
    Eq,
    Gt,
    Lt,
    And,
    Or,
    Unsupported,
}

/// An expression.
#[derive(Debug, PartialEq, Eq)]
pub enum Expr {
    /// A bare column name.
    Identifier(String),
    Value(Literal),
    BinaryOp { left: Box<Expr>, op: BinaryOperator, right: Box<Expr> },
    /// Any other shape: a function call, a subquery, `IN`, `LIKE`, ...
    Unsupported,
}

/// One item of a projection list.
#[derive(Debug, PartialEq, Eq)]
pub enum SelectItem {
    /// An expression without an alias.
    UnnamedExpr(Expr),
    /// `*`
    Wildcard,
    /// An aliased expression, a qualified wildcard, ...
    Unsupported,
}

/// What stands in a `FROM` list or as the target of a statement.
#[derive(Debug, PartialEq, Eq)]
pub enum TableFactor {
    /// A table, by the segments of its possibly qualified name.
    Table { name: Vec<String> },
    /// A derived table, a table function, ...
    Unsupported,
}

/// A single-level `SELECT`.
#[derive(Debug, PartialEq, Eq)]
pub struct Select {
    pub projection: Vec<SelectItem>,
    pub from: Vec<TableFactor>,
    pub selection: Option<Expr>,
}

/// The body of a query.
#[derive(Debug, PartialEq, Eq)]
pub enum SetExpr {
    Select(Select),
    /// `VALUES (..), (..)`, row by row.
    Values(Vec<Vec<Expr>>),
    /// A set operation, a nested query, ...
    Unsupported,
}

/// `column = value` in an `UPDATE`, the column by the segments of its name.
#[derive(Debug, PartialEq, Eq)]
pub struct Assignment {
    pub id: Vec<String>,
    pub value: Expr,
}

/// One statement.
#[derive(Debug, PartialEq, Eq)]
pub enum Statement {
    Query(SetExpr),
    Insert { table_name: Vec<String>, columns: Vec<String>, source: SetExpr },
    Update { table: TableFactor, assignments: Vec<Assignment>, selection: Option<Expr> },
    Delete { from: Vec<TableFactor>, selection: Option<Expr> },
    /// Any other kind of statement.
    Unsupported,
}

} // verus!
