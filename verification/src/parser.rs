//! Recursive-descent parser over the token stream.
//!
//! Grammar, with `?` marking an optional element:
//!
//! ```text
//! select_stmt := SELECT column (',' column)* FROM table_name
//! insert_stmt := INSERT INTO table_name VALUES value (',' value)*
//! column     := Identifier
//! value      := String | Integer
//! ```
//!
//! Whitespace tokens are skipped inside the column and value lists;
//! `INSERT`, `INTO` and `VALUES` each allow one leading whitespace
//! token, and a table name allows one leading and consumes one trailing
//! whitespace token. Lists require strict alternation: an empty list or
//! a comma not followed by the expected element is a parse failure.
//! The alternatives are tried in a fixed order (`SELECT`, then
//! `INSERT`); leftover tokens after a full match are ignored. Any
//! failure is reported as the single error `NoMatch`.

use vstd::prelude::*;

use crate::ast::{
    InsertModel, InsertStatement, SelectModel, SelectStatement, Selection, Statement, StmtModel,
    ValModel, Value, insert_matches, select_matches, stmt_matches,
};
use crate::tokenizer::{Keyword, Tok, TokKind, Token, TokenKind, toks_view};

verus! {

/// The parser's only error: the token stream matches no alternative.
#[derive(Debug, PartialEq)]
pub enum Error {
    NoMatch,
}

// ---------------------------------------------------------------------------
// Grammar, as functions on the token model
// ---------------------------------------------------------------------------

/// Token `i` exists and is the keyword `k`.
pub open spec fn at_keyword(ts: Seq<Tok>, i: int, k: Keyword) -> bool {
    0 <= i < ts.len() && ts[i].kind == TokKind::Keyword(k)
}

/// Token `i` exists and is whitespace.
pub open spec fn at_ws(ts: Seq<Tok>, i: int) -> bool {
    0 <= i < ts.len() && ts[i].kind is Whitespace
}

/// Consume the keyword `k` exactly at `i`.
pub open spec fn plain_keyword(ts: Seq<Tok>, i: int, k: Keyword) -> Option<int> {
    if at_keyword(ts, i, k) {
        Some(i + 1)
    } else {
        None
    }
}

/// Consume the keyword `k` at `i`, allowing one leading whitespace token.
pub open spec fn padded_keyword(ts: Seq<Tok>, i: int, k: Keyword) -> Option<int> {
    let j = if at_ws(ts, i) {
        i + 1
    } else {
        i
    };
    if at_keyword(ts, j, k) {
        Some(j + 1)
    } else {
        None
    }
}

/// Consume a table name at `i`: one optional leading whitespace token,
/// an identifier, and one trailing whitespace token if present.
pub open spec fn table_name_at(ts: Seq<Tok>, i: int) -> Option<(int, Seq<char>)> {
    let j = if at_ws(ts, i) {
        i + 1
    } else {
        i
    };
    if 0 <= j < ts.len() && ts[j].kind is Identifier {
        let t = ts[j].kind->Identifier_0;
        if j + 1 < ts.len() && ts[j + 1].kind is Whitespace {
            Some((j + 2, t))
        } else {
            Some((j + 1, t))
        }
    } else {
        None
    }
}

/// Walk a column list from `i`. Returns the stop position, the columns
/// collected, and whether the walk stopped while still expecting an
/// identifier (empty list or dangling comma).
pub open spec fn cols_scan(ts: Seq<Tok>, i: int, expect: bool) -> (int, Seq<Seq<char>>, bool)
    decreases ts.len() - i when 0 <= i
{
    if i < 0 || i >= ts.len() {
        (i, Seq::empty(), expect)
    } else if ts[i].kind is Whitespace {
        cols_scan(ts, i + 1, expect)
    } else if expect && ts[i].kind is Identifier {
        let r = cols_scan(ts, i + 1, false);
        (r.0, seq![ts[i].kind->Identifier_0] + r.1, r.2)
    } else if !expect && ts[i].kind is Comma {
        cols_scan(ts, i + 1, true)
    } else {
        (i, Seq::empty(), expect)
    }
}

/// A column list at `i`: at least one column, strict alternation, not
/// ending on a comma.
pub open spec fn columns_at(ts: Seq<Tok>, i: int) -> Option<(int, Seq<Seq<char>>)> {
    let r = cols_scan(ts, i, true);
    if r.1.len() == 0 || r.2 {
        None
    } else {
        Some((r.0, r.1))
    }
}

/// Walk a value list from `i`, as `cols_scan` does for columns; a value
/// is a string literal or an integer literal.
pub open spec fn vals_scan(ts: Seq<Tok>, i: int, expect: bool) -> (int, Seq<ValModel>, bool)
    decreases ts.len() - i when 0 <= i
{
    if i < 0 || i >= ts.len() {
        (i, Seq::empty(), expect)
    } else if ts[i].kind is Whitespace {
        vals_scan(ts, i + 1, expect)
    } else if expect && ts[i].kind is StrLit {
        let r = vals_scan(ts, i + 1, false);
        (r.0, seq![ValModel::StrLit(ts[i].kind->StrLit_0)] + r.1, r.2)
    } else if expect && ts[i].kind is Integer {
        let r = vals_scan(ts, i + 1, false);
        (r.0, seq![ValModel::Int(ts[i].kind->Integer_0)] + r.1, r.2)
    } else if !expect && ts[i].kind is Comma {
        vals_scan(ts, i + 1, true)
    } else {
        (i, Seq::empty(), expect)
    }
}

/// A value list at `i`: at least one value, strict alternation, not
/// ending on a comma.
pub open spec fn values_at(ts: Seq<Tok>, i: int) -> Option<(int, Seq<ValModel>)> {
    let r = vals_scan(ts, i, true);
    if r.1.len() == 0 || r.2 {
        None
    } else {
        Some((r.0, r.1))
    }
}

/// A full `SELECT` statement starting at token 0.
pub open spec fn select_at(ts: Seq<Tok>) -> Option<SelectModel> {
    match plain_keyword(ts, 0, Keyword::Select) {
        None => None,
        Some(i1) => match columns_at(ts, i1) {
            None => None,
            Some((i2, cols)) => match plain_keyword(ts, i2, Keyword::From) {
                None => None,
                Some(i3) => match table_name_at(ts, i3) {
                    None => None,
                    Some((_i4, table)) => Some(SelectModel { columns: cols, table }),
                },
            },
        },
    }
}

/// A full `INSERT` statement starting at token 0.
pub open spec fn insert_at(ts: Seq<Tok>) -> Option<InsertModel> {
    match padded_keyword(ts, 0, Keyword::Insert) {
        None => None,
        Some(i1) => match padded_keyword(ts, i1, Keyword::Into) {
            None => None,
            Some(i2) => match table_name_at(ts, i2) {
                None => None,
                Some((i3, table)) => match padded_keyword(ts, i3, Keyword::Values) {
                    None => None,
                    Some(i4) => match values_at(ts, i4) {
                        None => None,
                        Some((_i5, values)) => Some(InsertModel { table, values }),
                    },
                },
            },
        },
    }
}

/// What the token stream parses to: the first alternative (`SELECT`,
/// then `INSERT`) that fully matches, or nothing.
pub open spec fn parse_stmt(ts: Seq<Tok>) -> Option<StmtModel> {
    if select_at(ts) is Some {
        Some(StmtModel::Select(select_at(ts)->0))
    } else if insert_at(ts) is Some {
        Some(StmtModel::Insert(insert_at(ts)->0))
    } else {
        None
    }
}

// ---------------------------------------------------------------------------
// The parser
// ---------------------------------------------------------------------------

/// Parser state: the token stream under examination.
pub struct Parser {
    tokens: Vec<Token>,
}

impl View for Parser {
    type V = Seq<Tok>;

    closed spec fn view(&self) -> Seq<Tok> {
        toks_view(self.tokens@)
    }
}

impl Parser {
    pub fn new(tokens: Vec<Token>) -> (p: Parser)
        ensures
            p@ == toks_view(tokens@),
    {
        Parser { tokens }
    }

    /// Parse the token stream into one statement, or report `NoMatch`.
    pub fn parse(&self) -> (r: Result<Statement, Error>)
        ensures
            r is Ok <==> parse_stmt(self@) is Some,
            r is Ok ==> stmt_matches(r->Ok_0, parse_stmt(self@)->0),
            r is Err ==> r->Err_0 is NoMatch,
    {
        if let Some(s) = self.select_statement() {
            return Ok(Statement::Select(s));
        }
        if let Some(s) = self.insert_statement() {
            return Ok(Statement::Insert(s));
        }
        Err(Error::NoMatch)
    }

    fn select_statement(&self) -> (r: Option<SelectStatement>)
        ensures
            match r {
                Some(s) => select_at(self@) is Some && select_matches(s, select_at(self@)->0),
                None => select_at(self@) is None,
            },
    {
        let i1 = match self.plain_keyword_tok(0, Keyword::Select) {
            Some(i) => i,
            None => {
                return None;
            },
        };
        let (i2, cols) = match self.columns(i1) {
            Some(x) => x,
            None => {
                return None;
            },
        };
        let i3 = match self.plain_keyword_tok(i2, Keyword::From) {
            Some(i) => i,
            None => {
                return None;
            },
        };
        let table = match self.table_name(i3) {
            Some((_i4, t)) => t,
            None => {
                return None;
            },
        };
        let ghost m = select_at(self@)->0;
        let n = cols.len();
        let mut selections: Vec<Selection> = Vec::new();
        let mut k: usize = 0;
        while k < n
            invariant
                k <= n,
                n == cols.len(),
                cols@.map_values(|c: String| c@) == m.columns,
                selections@.len() == k,
                forall|j: int|
                    0 <= j < k ==> (#[trigger] selections@[j]).column@ == m.columns[j]
                        && selections@[j].alias is None,
            decreases n - k,
        {
            let column = cols[k].clone();
            selections.push(Selection { column, alias: None });
            k = k + 1;
        }
        Some(SelectStatement { selections, table, where_clause: None, pagination: None })
    }

    fn insert_statement(&self) -> (r: Option<InsertStatement>)
        ensures
            match r {
                Some(s) => insert_at(self@) is Some && insert_matches(s, insert_at(self@)->0),
                None => insert_at(self@) is None,
            },
    {
        let i1 = match self.padded_keyword_tok(0, Keyword::Insert) {
            Some(i) => i,
            None => {
                return None;
            },
        };
        let i2 = match self.padded_keyword_tok(i1, Keyword::Into) {
            Some(i) => i,
            None => {
                return None;
            },
        };
        let (i3, table) = match self.table_name(i2) {
            Some(x) => x,
            None => {
                return None;
            },
        };
        let i4 = match self.padded_keyword_tok(i3, Keyword::Values) {
            Some(i) => i,
            None => {
                return None;
            },
        };
        let values = match self.values(i4) {
            Some((_i5, vs)) => vs,
            None => {
                return None;
            },
        };
        Some(InsertStatement { table, columns: None, values })
    }

    /// Whether token `i` is whitespace.
    fn ws_at(&self, i: usize) -> (b: bool)
        ensures
            b == at_ws(self@, i as int),
    {
        if i < self.tokens.len() {
            match &self.tokens[i].kind {
                TokenKind::Whitespace => true,
                _ => false,
            }
        } else {
            false
        }
    }

    /// Whether token `i` is the keyword `k`.
    fn keyword_at_tok(&self, i: usize, k: Keyword) -> (b: bool)
        ensures
            b == at_keyword(self@, i as int, k),
    {
        if i < self.tokens.len() {
            match &self.tokens[i].kind {
                TokenKind::Keyword(kw) => *kw == k,
                _ => false,
            }
        } else {
            false
        }
    }

    fn plain_keyword_tok(&self, i: usize, k: Keyword) -> (r: Option<usize>)
        requires
            i <= self.tokens.len(),
        ensures
            match r {
                Some(j) => plain_keyword(self@, i as int, k) == Some(j as int) && i < j
                    <= self.tokens.len(),
                None => plain_keyword(self@, i as int, k) is None,
            },
    {
        if self.keyword_at_tok(i, k) {
            Some(i + 1)
        } else {
            None
        }
    }

    fn padded_keyword_tok(&self, i: usize, k: Keyword) -> (r: Option<usize>)
        requires
            i <= self.tokens.len(),
        ensures
            match r {
                Some(j) => padded_keyword(self@, i as int, k) == Some(j as int) && i < j
                    <= self.tokens.len(),
                None => padded_keyword(self@, i as int, k) is None,
            },
    {
        let j = if self.ws_at(i) {
            i + 1
        } else {
            i
        };
        if self.keyword_at_tok(j, k) {
            Some(j + 1)
        } else {
            None
        }
    }

    fn table_name(&self, i: usize) -> (r: Option<(usize, String)>)
        requires
            i <= self.tokens.len(),
        ensures
            match r {
                Some((j, t)) => table_name_at(self@, i as int) == Some((j as int, t@)) && i < j
                    <= self.tokens.len(),
                None => table_name_at(self@, i as int) is None,
            },
    {
        let j = if self.ws_at(i) {
            i + 1
        } else {
            i
        };
        if j < self.tokens.len() {
            match &self.tokens[j].kind {
                TokenKind::Identifier(t) => {
                    let text = t.clone();
                    if self.ws_at(j + 1) {
                        Some((j + 2, text))
                    } else {
                        Some((j + 1, text))
                    }
                },
                _ => None,
            }
        } else {
            None
        }
    }

    /// The column list starting at `start`.
    fn columns(&self, start: usize) -> (r: Option<(usize, Vec<String>)>)
        requires
            start <= self.tokens.len(),
        ensures
            match r {
                Some((j, cols)) => columns_at(self@, start as int) == Some(
                    (j as int, cols@.map_values(|c: String| c@)),
                ) && start <= j <= self.tokens.len(),
                None => columns_at(self@, start as int) is None,
            },
    {
        let n = self.tokens.len();
        let mut i = start;
        let mut expect = true;
        let mut cols: Vec<String> = Vec::new();
        let mut stopped = false;
        proof {
            assert(cols@.map_values(|c: String| c@) =~= Seq::<Seq<char>>::empty());
        }
        while !stopped && i < n
            invariant
                start <= i <= n,
                n == self.tokens.len(),
                ({
                    let whole = cols_scan(self@, start as int, true);
                    let here = cols_scan(self@, i as int, expect);
                    whole.0 == here.0 && whole.1 == cols@.map_values(|c: String| c@) + here.1
                        && whole.2 == here.2
                }),
                stopped ==> cols_scan(self@, i as int, expect) == (
                    i as int,
                    Seq::<Seq<char>>::empty(),
                    expect,
                ),
            decreases n - i + (if stopped {
                0int
            } else {
                1int
            }),
        {
            let ghost prev = cols@.map_values(|c: String| c@);
            match &self.tokens[i].kind {
                TokenKind::Whitespace => {
                    i = i + 1;
                },
                TokenKind::Identifier(s) => {
                    if expect {
                        let c = s.clone();
                        proof {
                            let here = cols_scan(self@, i as int, true);
                            let next = cols_scan(self@, i + 1, false);
                            assert(here.1 == seq![self@[i as int].kind->Identifier_0] + next.1);
                            assert(cols@.push(c).map_values(|c: String| c@) =~= prev.push(c@));
                            assert(prev + (seq![c@] + next.1) =~= prev.push(c@) + next.1);
                        }
                        cols.push(c);
                        i = i + 1;
                        expect = false;
                    } else {
                        stopped = true;
                    }
                },
                TokenKind::Comma => {
                    if !expect {
                        i = i + 1;
                        expect = true;
                    } else {
                        stopped = true;
                    }
                },
                _ => {
                    stopped = true;
                },
            }
        }
        if cols.len() == 0 {
            return None;
        }
        if expect {
            return None;
        }
        Some((i, cols))
    }

    /// The value list starting at `start`.
    fn values(&self, start: usize) -> (r: Option<(usize, Vec<Value>)>)
        requires
            start <= self.tokens.len(),
        ensures
            match r {
                Some((j, vals)) => values_at(self@, start as int) == Some(
                    (j as int, vals@.map_values(|v: Value| v@)),
                ) && start <= j <= self.tokens.len(),
                None => values_at(self@, start as int) is None,
            },
    {
        let n = self.tokens.len();
        let mut i = start;
        let mut expect = true;
        let mut vals: Vec<Value> = Vec::new();
        let mut stopped = false;
        proof {
            assert(vals@.map_values(|v: Value| v@) =~= Seq::<ValModel>::empty());
        }
        while !stopped && i < n
            invariant
                start <= i <= n,
                n == self.tokens.len(),
                ({
                    let whole = vals_scan(self@, start as int, true);
                    let here = vals_scan(self@, i as int, expect);
                    whole.0 == here.0 && whole.1 == vals@.map_values(|v: Value| v@) + here.1
                        && whole.2 == here.2
                }),
                stopped ==> vals_scan(self@, i as int, expect) == (
                    i as int,
                    Seq::<ValModel>::empty(),
                    expect,
                ),
            decreases n - i + (if stopped {
                0int
            } else {
                1int
            }),
        {
            let ghost prev = vals@.map_values(|v: Value| v@);
            match &self.tokens[i].kind {
                TokenKind::Whitespace => {
                    i = i + 1;
                },
                TokenKind::String(s) => {
                    if expect {
                        let v = Value::String(s.clone());
                        proof {
                            let here = vals_scan(self@, i as int, true);
                            let next = vals_scan(self@, i + 1, false);
                            assert(here.1 == seq![ValModel::StrLit(self@[i as int].kind->StrLit_0)]
                                + next.1);
                            assert(vals@.push(v).map_values(|v: Value| v@) =~= prev.push(v@));
                            assert(prev + (seq![v@] + next.1) =~= prev.push(v@) + next.1);
                        }
                        vals.push(v);
                        i = i + 1;
                        expect = false;
                    } else {
                        stopped = true;
                    }
                },
                TokenKind::Integer(x) => {
                    if expect {
                        let v = Value::Int(*x);
                        proof {
                            let here = vals_scan(self@, i as int, true);
                            let next = vals_scan(self@, i + 1, false);
                            assert(here.1 == seq![ValModel::Int(self@[i as int].kind->Integer_0)]
                                + next.1);
                            assert(vals@.push(v).map_values(|v: Value| v@) =~= prev.push(v@));
                            assert(prev + (seq![v@] + next.1) =~= prev.push(v@) + next.1);
                        }
                        vals.push(v);
                        i = i + 1;
                        expect = false;
                    } else {
                        stopped = true;
                    }
                },
                TokenKind::Comma => {
                    if !expect {
                        i = i + 1;
                        expect = true;
                    } else {
                        stopped = true;
                    }
                },
                _ => {
                    stopped = true;
                },
            }
        }
        if vals.len() == 0 {
            return None;
        }
        if expect {
            return None;
        }
        Some((i, vals))
    }
}

} // verus!
