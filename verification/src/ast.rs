//! Statement model produced by the parser.
//!
//! Only `Select` and `Insert` are ever produced by the grammar; the
//! other variants, the `WHERE` expressions and the pagination fields are
//! part of the statement vocabulary but are never built or evaluated.

use vstd::prelude::*;

verus! {

/// One parsed SQL command.
#[derive(Debug, PartialEq)]
pub enum Statement {
    Select(SelectStatement),
    Insert(InsertStatement),
    Delete(DeleteStatement),
    Update(UpdateStatement),
}

#[derive(Debug, PartialEq)]
pub struct SelectStatement {
    pub selections: Vec<Selection>,
    pub table: String,
    pub where_clause: Option<WhereExpression>,
    pub pagination: Option<Pagination>,
}

#[derive(Debug, PartialEq)]
pub struct InsertStatement {
    pub table: String,
    pub columns: Option<Vec<String>>,
    pub values: Vec<Value>,
}

#[derive(Debug, PartialEq)]
pub struct DeleteStatement {
    pub table: String,
    pub where_clause: Option<WhereExpression>,
}

#[derive(Debug, PartialEq)]
pub struct UpdateStatement {
    pub assignments: Vec<UpdateAssignment>,
    pub table: String,
    pub where_clause: Option<WhereExpression>,
}

#[derive(Debug, PartialEq)]
pub struct UpdateAssignment {
    pub field: String,
    pub value: Value,
}

#[derive(Debug, PartialEq)]
pub struct Pagination {
    pub limit: Option<usize>,
    pub offset: Option<usize>,
}

#[derive(Debug, PartialEq)]
pub enum WhereExpression {
    And(Vec<WhereExpression>),
    Or(Vec<WhereExpression>),
    Not(Box<WhereExpression>),
    Condition(WhereCondition),
}

#[derive(Debug, PartialEq)]
pub struct WhereCondition {
    pub field: String,
    pub operator: Operator,
    pub value: Value,
}

#[derive(Debug, PartialEq, Eq, Clone, Copy)]
pub enum Operator {
    GreaterThan,
    GreaterThanEquals,
    Equals,
    SmallerThanEquals,
    SmallerThan,
    Contains,
}

/// A literal value of an `INSERT` statement.
#[derive(Debug, PartialEq)]
pub enum Value {
    String(String),
    Int(u32),
}

/// One selected column, optionally renamed.
#[derive(Debug, PartialEq)]
pub struct Selection {
    pub column: String,
    pub alias: Option<String>,
}

// ---------------------------------------------------------------------------
// Mathematical models
// ---------------------------------------------------------------------------

/// Model of a literal value: string payloads as `Seq<char>`.
pub enum ValModel {
    StrLit(Seq<char>),
    Int(u32),
}

impl View for Value {
    type V = ValModel;

    open spec fn view(&self) -> ValModel {
        match self {
            Value::String(s) => ValModel::StrLit(s@),
            Value::Int(n) => ValModel::Int(*n),
        }
    }
}

/// Model of a successfully parsed `SELECT`.
pub struct SelectModel {
    pub columns: Seq<Seq<char>>,
    pub table: Seq<char>,
}

/// Model of a successfully parsed `INSERT`.
pub struct InsertModel {
    pub table: Seq<char>,
    pub values: Seq<ValModel>,
}

/// Model of a successfully parsed statement.
pub enum StmtModel {
    Select(SelectModel),
    Insert(InsertModel),
}

/// The `SELECT` statement `s` is exactly what the model `m` describes:
/// the listed columns in order, none renamed, the given table, and no
/// `WHERE` clause or pagination.
pub open spec fn select_matches(s: SelectStatement, m: SelectModel) -> bool {
    &&& s.selections@.len() == m.columns.len()
    &&& forall|i: int|
        0 <= i < m.columns.len() ==> (#[trigger] s.selections@[i]).column@ == m.columns[i]
            && s.selections@[i].alias is None
    &&& s.table@ == m.table
    &&& s.where_clause is None
    &&& s.pagination is None
}

/// The `INSERT` statement `s` is exactly what the model `m` describes:
/// the given table, no column list, and the listed values in order.
pub open spec fn insert_matches(s: InsertStatement, m: InsertModel) -> bool {
    &&& s.table@ == m.table
    &&& s.columns is None
    &&& s.values@.map_values(|v: Value| v@) == m.values
}

/// The statement `s` is exactly what the model `m` describes.
pub open spec fn stmt_matches(s: Statement, m: StmtModel) -> bool {
    match m {
        StmtModel::Select(mm) => s matches Statement::Select(ss) && select_matches(ss, mm),
        StmtModel::Insert(mm) => s matches Statement::Insert(ss) && insert_matches(ss, mm),
    }
}

} // verus!
