//! Column metadata for display and validation.
//!
//! A database schema maps table names to table schemas; a table schema
//! is an ordered list of named columns, each an integer (4 bytes) or a
//! fixed-length string. Offsets and sizes are byte counts within a
//! record laid out column after column. Reading and writing schemas as
//! JSON files is the caller's concern; this module holds the data and
//! the lookup rules. The row codec itself does not consume this
//! metadata: the store has one hard-coded two-string-column layout.

use vstd::prelude::*;
use vstd::string::StrSliceExecFns;
use vstd::string::StringExecFns;

verus! {

/// A fixed-length string column.
#[derive(Debug, PartialEq, Eq, Structural, Clone, Copy)]
pub struct StringColumn {
    pub length: usize,
}

/// What a column holds.
#[derive(Debug, PartialEq, Eq, Structural, Clone, Copy)]
pub enum ColumnKind {
    String(StringColumn),
    Int,
}

/// One named column.
#[derive(Debug, PartialEq)]
pub struct Column {
    pub name: String,
    pub kind: ColumnKind,
}

/// Model of a column: the name as `Seq<char>`.
pub struct ColumnView {
    pub name: Seq<char>,
    pub kind: ColumnKind,
}

impl View for Column {
    type V = ColumnView;

    open spec fn view(&self) -> ColumnView {
        ColumnView { name: self.name@, kind: self.kind }
    }
}

/// Byte width of one column.
pub open spec fn col_size(c: ColumnView) -> int {
    match c.kind {
        ColumnKind::Int => 4,
        ColumnKind::String(sc) => sc.length as int,
    }
}

/// Byte width of a whole column list.
pub open spec fn total_size(cols: Seq<ColumnView>) -> int
    decreases cols.len(),
{
    if cols.len() == 0 {
        0
    } else {
        col_size(cols[0]) + total_size(cols.drop_first())
    }
}

/// Byte offset of the first column named `name`, if any.
pub open spec fn offset_of(cols: Seq<ColumnView>, name: Seq<char>) -> Option<int>
    decreases cols.len(),
{
    if cols.len() == 0 {
        None
    } else if cols[0].name == name {
        Some(0)
    } else {
        match offset_of(cols.drop_first(), name) {
            Some(o) => Some(col_size(cols[0]) + o),
            None => None,
        }
    }
}

proof fn lemma_total_size_nonneg(cols: Seq<ColumnView>)
    ensures
        total_size(cols) >= 0,
    decreases cols.len(),
{
    if cols.len() > 0 {
        lemma_total_size_nonneg(cols.drop_first());
    }
}

impl Column {
    /// Byte width of this column: 4 for an integer, the declared
    /// length for a string.
    pub fn size(&self) -> (n: usize)
        ensures
            n as int == col_size(self@),
    {
        match self.kind {
            ColumnKind::Int => 4,
            ColumnKind::String(sc) => sc.length,
        }
    }
}

/// Character-wise string equality.
fn str_eq(a: &str, b: &str) -> (r: bool)
    ensures
        r == (a@ == b@),
{
    let na = a.unicode_len();
    let nb = b.unicode_len();
    if na != nb {
        return false;
    }
    let mut i: usize = 0;
    while i < na
        invariant
            i <= na,
            na as int == a@.len(),
            na as int == b@.len(),
            forall|k: int| 0 <= k < i ==> a@[k] == b@[k],
        decreases na - i,
    {
        if a.get_char(i) != b.get_char(i) {
            return false;
        }
        i = i + 1;
    }
    proof {
        assert(a@ =~= b@);
    }
    true
}

// ---------------------------------------------------------------------------
// Table schema
// ---------------------------------------------------------------------------

/// The ordered columns of one table.
#[derive(Debug, PartialEq)]
pub struct TableSchema {
    pub columns: Vec<Column>,
}

impl View for TableSchema {
    type V = Seq<ColumnView>;

    open spec fn view(&self) -> Seq<ColumnView> {
        self.columns@.map_values(|c: Column| c@)
    }
}

impl TableSchema {
    /// The total byte width must fit a `usize`.
    pub open spec fn wf(&self) -> bool {
        total_size(self@) <= usize::MAX
    }

    pub fn new(columns: Vec<Column>) -> (s: TableSchema)
        ensures
            s@ == columns@.map_values(|c: Column| c@),
    {
        TableSchema { columns }
    }

    /// Whether the total byte width fits a `usize`, making `size` and
    /// `offset` callable.
    pub fn check_wf(&self) -> (r: bool)
        ensures
            r == self.wf(),
    {
        let n = self.columns.len();
        let mut acc: usize = 0;
        let mut i: usize = 0;
        proof {
            assert(self@.skip(0) =~= self@);
        }
        while i < n
            invariant
                i <= n,
                n == self.columns@.len(),
                self@.len() == n,
                acc + total_size(self@.skip(i as int)) == total_size(self@),
            decreases n - i,
        {
            proof {
                assert(self@.skip(i as int).drop_first() =~= self@.skip(i + 1));
                assert(self@.skip(i as int)[0] == self@[i as int]);
                lemma_total_size_nonneg(self@.skip(i + 1));
            }
            let sz = self.columns[i].size();
            match acc.checked_add(sz) {
                Some(a) => {
                    acc = a;
                },
                None => {
                    return false;
                },
            }
            i = i + 1;
        }
        proof {
            assert(self@.skip(n as int) =~= Seq::<ColumnView>::empty());
        }
        true
    }

    /// The record width: the sizes of all columns summed.
    pub fn size(&self) -> (n: usize)
        requires
            self.wf(),
        ensures
            n as int == total_size(self@),
    {
        let cols = self.columns.len();
        let mut acc: usize = 0;
        let mut i: usize = 0;
        proof {
            assert(self@.skip(0) =~= self@);
        }
        while i < cols
            invariant
                i <= cols,
                cols == self.columns@.len(),
                self@.len() == cols,
                self.wf(),
                acc + total_size(self@.skip(i as int)) == total_size(self@),
            decreases cols - i,
        {
            proof {
                assert(self@.skip(i as int).drop_first() =~= self@.skip(i + 1));
                assert(self@.skip(i as int)[0] == self@[i as int]);
                lemma_total_size_nonneg(self@.skip(i + 1));
            }
            let sz = self.columns[i].size();
            acc = acc + sz;
            i = i + 1;
        }
        proof {
            assert(self@.skip(cols as int) =~= Seq::<ColumnView>::empty());
        }
        acc
    }

    /// Byte offset of the first column named `column_name`: the sizes
    /// of the columns before it summed; `None` if no column has that
    /// name.
    pub fn offset(&self, column_name: &str) -> (r: Option<usize>)
        requires
            self.wf(),
        ensures
            match r {
                Some(o) => offset_of(self@, column_name@) == Some(o as int),
                None => offset_of(self@, column_name@) is None,
            },
    {
        let cols = self.columns.len();
        let mut acc: usize = 0;
        let mut i: usize = 0;
        proof {
            assert(self@.skip(0) =~= self@);
        }
        while i < cols
            invariant
                i <= cols,
                cols == self.columns@.len(),
                self@.len() == cols,
                self.wf(),
                acc + total_size(self@.skip(i as int)) == total_size(self@),
                ({
                    let rest = offset_of(self@.skip(i as int), column_name@);
                    offset_of(self@, column_name@) == match rest {
                        Some(o) => Some(acc + o),
                        None => Option::<int>::None,
                    }
                }),
            decreases cols - i,
        {
            proof {
                assert(self@.skip(i as int).drop_first() =~= self@.skip(i + 1));
                assert(self@.skip(i as int)[0] == self@[i as int]);
                lemma_total_size_nonneg(self@.skip(i + 1));
            }
            if str_eq(self.columns[i].name.as_str(), column_name) {
                return Some(acc);
            }
            let sz = self.columns[i].size();
            acc = acc + sz;
            i = i + 1;
        }
        proof {
            assert(self@.skip(cols as int) =~= Seq::<ColumnView>::empty());
        }
        None
    }
}

// ---------------------------------------------------------------------------
// Database schema
// ---------------------------------------------------------------------------

/// The association of table names to their schemas, modelled as a map.
pub struct DatabaseSchema {
    tables: Vec<(String, TableSchema)>,
}

/// The map an association list denotes; a repeated key takes its last
/// entry, though `DatabaseSchema` keeps keys unique.
pub open spec fn assoc_map(s: Seq<(String, TableSchema)>) -> Map<Seq<char>, Seq<ColumnView>>
    decreases s.len(),
{
    if s.len() == 0 {
        Map::empty()
    } else {
        assoc_map(s.drop_last()).insert(s.last().0@, s.last().1@)
    }
}

/// No two entries share a name.
pub open spec fn uniq_names(s: Seq<(String, TableSchema)>) -> bool {
    forall|i: int, j: int| 0 <= i < j < s.len() ==> (#[trigger] s[i]).0@ != (#[trigger] s[j]).0@
}

proof fn lemma_assoc_index(s: Seq<(String, TableSchema)>, i: int)
    requires
        uniq_names(s),
        0 <= i < s.len(),
    ensures
        assoc_map(s).contains_key(s[i].0@),
        assoc_map(s)[s[i].0@] == s[i].1@,
    decreases s.len(),
{
    if i < s.len() - 1 {
        lemma_assoc_index(s.drop_last(), i);
        assert(s.drop_last()[i] == s[i]);
    }
}

proof fn lemma_assoc_absent(s: Seq<(String, TableSchema)>, k: Seq<char>)
    requires
        forall|i: int| 0 <= i < s.len() ==> (#[trigger] s[i]).0@ != k,
    ensures
        !assoc_map(s).contains_key(k),
    decreases s.len(),
{
    if s.len() > 0 {
        lemma_assoc_absent(s.drop_last(), k);
    }
}

proof fn lemma_assoc_update(s: Seq<(String, TableSchema)>, i: int, p: (String, TableSchema))
    requires
        uniq_names(s),
        0 <= i < s.len(),
        s[i].0@ == p.0@,
    ensures
        assoc_map(s.update(i, p)) =~= assoc_map(s).insert(p.0@, p.1@),
    decreases s.len(),
{
    let s2 = s.update(i, p);
    if i == s.len() - 1 {
        assert(s2.drop_last() =~= s.drop_last());
        assert(s2.last() == p);
    } else {
        assert(s2.drop_last() =~= s.drop_last().update(i, p));
        assert(s.drop_last()[i] == s[i]);
        lemma_assoc_update(s.drop_last(), i, p);
        assert(s2.last() == s.last());
        assert(s[i].0@ != s.last().0@);
    }
}

impl DatabaseSchema {
    pub closed spec fn uniq(&self) -> bool {
        uniq_names(self.tables@)
    }

    /// An empty schema with no tables.
    pub fn new() -> (s: DatabaseSchema)
        ensures
            s.uniq(),
            s@ == Map::<Seq<char>, Seq<ColumnView>>::empty(),
    {
        DatabaseSchema { tables: Vec::new() }
    }

    /// Add `schema` under `name`, replacing any schema that name
    /// already had.
    pub fn add_table(&mut self, name: &str, schema: TableSchema)
        requires
            old(self).uniq(),
        ensures
            final(self).uniq(),
            final(self)@ == old(self)@.insert(name@, schema@),
    {
        let n = self.tables.len();
        let mut i: usize = 0;
        while i < n
            invariant
                i <= n,
                n == self.tables@.len(),
                self == old(self),
                self.uniq(),
                forall|j: int| 0 <= j < i ==> (#[trigger] self.tables@[j]).0@ != name@,
            decreases n - i,
        {
            if str_eq(self.tables[i].0.as_str(), name) {
                let owned = String::from_str(name);
                let ghost pre = self.tables@;
                self.tables.set(i, (owned, schema));
                proof {
                    lemma_assoc_update(pre, i as int, self.tables@[i as int]);
                    assert forall|a: int, b: int|
                        0 <= a < b < self.tables@.len() implies (#[trigger] self.tables@[a]).0@
                        != (#[trigger] self.tables@[b]).0@ by {
                        assert(pre[a].0@ != pre[b].0@);
                    }
                }
                return ;
            }
            i = i + 1;
        }
        let owned = String::from_str(name);
        let ghost pre = self.tables@;
        self.tables.push((owned, schema));
        proof {
            assert(self.tables@.drop_last() =~= pre);
            assert forall|a: int, b: int|
                0 <= a < b < self.tables@.len() implies (#[trigger] self.tables@[a]).0@
                != (#[trigger] self.tables@[b]).0@ by {
                if b < pre.len() as int {
                    assert(pre[a].0@ != pre[b].0@);
                } else {
                    assert(self.tables@[b].0@ == name@);
                    assert(pre[a].0@ != name@);
                }
            }
        }
    }

    /// The schema stored under `name`, if any.
    pub fn get_table_schema(&self, name: &str) -> (r: Option<&TableSchema>)
        requires
            self.uniq(),
        ensures
            match r {
                Some(t) => self@.contains_key(name@) && t@ == self@[name@],
                None => !self@.contains_key(name@),
            },
    {
        let n = self.tables.len();
        let mut i: usize = 0;
        while i < n
            invariant
                i <= n,
                n == self.tables@.len(),
                self.uniq(),
                forall|j: int| 0 <= j < i ==> (#[trigger] self.tables@[j]).0@ != name@,
            decreases n - i,
        {
            if str_eq(self.tables[i].0.as_str(), name) {
                proof {
                    lemma_assoc_index(self.tables@, i as int);
                }
                return Some(&self.tables[i].1);
            }
            i = i + 1;
        }
        proof {
            lemma_assoc_absent(self.tables@, name@);
        }
        None
    }

    /// The names of all tables, in insertion order, each exactly once.
    pub fn list_tables(&self) -> (r: Vec<String>)
        requires
            self.uniq(),
        ensures
            forall|i: int| 0 <= i < r@.len() ==> self@.contains_key((#[trigger] r@[i])@),
            forall|k: Seq<char>|
                self@.contains_key(k) ==> exists|i: int| 0 <= i < r@.len() && (#[trigger] r@[i])@
                    == k,
            forall|i: int, j: int| 0 <= i < j < r@.len() ==> (#[trigger] r@[i])@ != (#[trigger] r@[j])@,
    {
        let n = self.tables.len();
        let mut out: Vec<String> = Vec::new();
        let mut i: usize = 0;
        while i < n
            invariant
                i <= n,
                n == self.tables@.len(),
                self.uniq(),
                out@.len() == i,
                forall|j: int| 0 <= j < i ==> (#[trigger] out@[j])@ == self.tables@[j].0@,
            decreases n - i,
        {
            let name = self.tables[i].0.clone();
            out.push(name);
            i = i + 1;
        }
        proof {
            assert forall|i: int|
                0 <= i < out@.len() implies self@.contains_key((#[trigger] out@[i])@) by {
                lemma_assoc_index(self.tables@, i);
            }
            assert forall|k: Seq<char>|
                self@.contains_key(k) implies exists|i: int|
                0 <= i < out@.len() && (#[trigger] out@[i])@ == k by {
                lemma_assoc_witness(self.tables@, k);
                let w = choose|w: int|
                    0 <= w < self.tables@.len() && (#[trigger] self.tables@[w]).0@ == k;
                assert(out@[w]@ == k);
            }
        }
        out
    }
}

proof fn lemma_assoc_witness(s: Seq<(String, TableSchema)>, k: Seq<char>)
    requires
        assoc_map(s).contains_key(k),
    ensures
        exists|i: int| 0 <= i < s.len() && (#[trigger] s[i]).0@ == k,
    decreases s.len(),
{
    if s.len() > 0 {
        if s.last().0@ == k {
            assert(s[s.len() - 1].0@ == k);
        } else {
            lemma_assoc_witness(s.drop_last(), k);
            let w = choose|w: int|
                0 <= w < s.drop_last().len() && (#[trigger] s.drop_last()[w]).0@ == k;
            assert(s[w].0@ == k);
        }
    }
}

impl View for DatabaseSchema {
    type V = Map<Seq<char>, Seq<ColumnView>>;

    closed spec fn view(&self) -> Map<Seq<char>, Seq<ColumnView>> {
        assoc_map(self.tables@)
    }
}

} // verus!
