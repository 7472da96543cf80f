//! Interprets one parsed statement against the table.
//!
//! This is the decision core of the command loop: it tokenizes and
//! parses one line of SQL and applies the result to the table,
//! reporting what happened as a plain value for the caller to present.
//! A `SELECT` reads row 0 (no `WHERE` evaluation exists); an `INSERT`
//! expects its first three values to be an integer id, a username
//! string and an email string, pre-validates their byte lengths
//! against the row buffers, and appends the row. Every failure is a
//! reported outcome, never a fault: bad grammar, wrong value shapes,
//! over-long buffers, and a full table each have their own report.

use vstd::prelude::*;
use vstd::string::StrSliceExecFns;
use vstd::utf8::encode_utf8;

use crate::ast::{InsertModel, Statement, StmtModel, Value};
use crate::parser::{Parser, parse_stmt};
use crate::table::{NAME_SIZE, Row, RowView, TABLE_CAPACITY, Table, TableView, record_at, stored_row, zero_pad};
use crate::tokenizer::{Tokenizer, tokenize};
use crate::MAX_PAGES;
use crate::pager::page_of;

verus! {

/// What executing one line of SQL did.
#[derive(Debug, PartialEq)]
pub enum ExecOutcome {
    /// A `SELECT` ran; row 0, if its slot is occupied.
    Selected(Option<Row>),
    /// An `INSERT` appended its row.
    Inserted,
    /// The line did not parse.
    InvalidSql,
    /// The `INSERT` values are not an integer and two strings, or a
    /// string is longer than a row buffer.
    InvalidValues,
    /// The table already holds `TABLE_CAPACITY` rows.
    Full,
}

/// The id, username and email of an `INSERT`, where its first three
/// values have the expected shapes; further values are ignored.
pub open spec fn insert_args(m: InsertModel) -> Option<(u32, Seq<char>, Seq<char>)> {
    if m.values.len() >= 3 && m.values[0] is Int && m.values[1] is StrLit && m.values[2]
        is StrLit {
        Some((m.values[0]->Int_0, m.values[1]->StrLit_0, m.values[2]->StrLit_0))
    } else {
        None
    }
}

/// Neither the rows nor the file image of `b` differ from `a`; only
/// which pages sit in the cache may.
pub open spec fn table_unchanged(a: TableView, b: TableView) -> bool {
    &&& b.count == a.count
    &&& b.store.file == a.store.file
    &&& forall|j: int| 0 <= j < MAX_PAGES ==> page_of(b.store, j) == page_of(a.store, j)
}

/// Tokenize, parse and execute one line of SQL against `table`.
pub fn execute_sql(sql: &str, table: &mut Table) -> (r: ExecOutcome)
    requires
        old(table).wf(),
    ensures
        final(table).wf(),
        ({
            let m = parse_stmt(tokenize(sql@));
            match m {
                None => r == ExecOutcome::InvalidSql && table_unchanged(
                    old(table)@,
                    final(table)@,
                ),
                Some(StmtModel::Select(_)) => {
                    &&& table_unchanged(old(table)@, final(table)@)
                    &&& r matches ExecOutcome::Selected(row)
                    &&& match stored_row(old(table)@.store, 0) {
                        Some(rv) => r->Selected_0 matches Some(rw) && rw@ == rv,
                        None => r->Selected_0 is None,
                    }
                },
                Some(StmtModel::Insert(im)) => match insert_args(im) {
                    None => r == ExecOutcome::InvalidValues && table_unchanged(
                        old(table)@,
                        final(table)@,
                    ),
                    Some((id, u, e)) => {
                        let ub = encode_utf8(u);
                        let eb = encode_utf8(e);
                        if ub.len() > NAME_SIZE || eb.len() > NAME_SIZE {
                            r == ExecOutcome::InvalidValues && table_unchanged(
                                old(table)@,
                                final(table)@,
                            )
                        } else if old(table)@.count >= TABLE_CAPACITY {
                            r == ExecOutcome::Full && table_unchanged(old(table)@, final(table)@)
                        } else {
                            &&& r == ExecOutcome::Inserted
                            &&& final(table)@.count == old(table)@.count + 1
                            &&& final(table)@.store.file == old(table)@.store.file
                            &&& stored_row(final(table)@.store, old(table)@.count) == Some(
                                RowView { id, username: zero_pad(ub), email: zero_pad(eb) },
                            )
                            &&& forall|idx: int|
                                0 <= idx < TABLE_CAPACITY && idx != old(table)@.count
                                    ==> #[trigger] record_at(final(table)@.store, idx) == record_at(
                                    old(table)@.store,
                                    idx,
                                )
                        }
                    },
                },
            }
        }),
{
    let tokenizer = Tokenizer::new(sql);
    let tokens = tokenizer.parse();
    let parser = Parser::new(tokens);
    let parsed = parser.parse();
    match parsed {
        Err(_) => ExecOutcome::InvalidSql,
        Ok(Statement::Select(_)) => {
            let row = table.get_row(0);
            ExecOutcome::Selected(row)
        },
        Ok(Statement::Insert(stmt)) => {
            if stmt.values.len() < 3 {
                return ExecOutcome::InvalidValues;
            }
            let id = match &stmt.values[0] {
                Value::Int(n) => *n,
                _ => {
                    return ExecOutcome::InvalidValues;
                },
            };
            let username = match &stmt.values[1] {
                Value::String(s) => s,
                _ => {
                    return ExecOutcome::InvalidValues;
                },
            };
            let email = match &stmt.values[2] {
                Value::String(s) => s,
                _ => {
                    return ExecOutcome::InvalidValues;
                },
            };
            let ub = username.as_str().as_bytes_vec();
            let eb = email.as_str().as_bytes_vec();
            if ub.len() > NAME_SIZE || eb.len() > NAME_SIZE {
                return ExecOutcome::InvalidValues;
            }
            let row = Row::from_bytes(id, ub, eb);
            match table.insert(row) {
                Ok(_) => ExecOutcome::Inserted,
                Err(_) => ExecOutcome::Full,
            }
        },
        Ok(_) => {
            proof {
                assert(false);
            }
            ExecOutcome::InvalidSql
        },
    }
}

} // verus!
