//! The row store: fixed-width records in fixed-size pages.
//!
//! A record is `ROW_SIZE` bytes: a 4-byte presence sentinel
//! (`0xFFFFFFFF` means occupied, anything else an empty slot), the id
//! as 4 big-endian bytes, then the username and email as two
//! `NAME_SIZE`-byte zero-padded buffers. Row `idx` lives in page
//! `idx / ROWS_PER_PAGE` at slot `idx % ROWS_PER_PAGE`. The store is
//! append-only: there is no update or delete path. Inserting past
//! `TABLE_CAPACITY` rows is a capacity error, not a silent write to a
//! nonexistent page.

use vstd::prelude::*;
use vstd::string::StrSliceExecFns;
use vstd::string::StringSliceAdditionalSpecFns;

use crate::pager::{
    Page, Pager, PagerError, PagerView, flush_file, open_view, page_of, pager_wf_view,
};
use crate::{MAX_PAGES, PAGE_SIZE};

verus! {

/// Width of one on-disk record in bytes.
pub const ROW_SIZE: usize = 264;

/// Width of the username and email buffers in bytes.
pub const NAME_SIZE: usize = 128;

/// Records that fit in one page.
pub const ROWS_PER_PAGE: usize = PAGE_SIZE / ROW_SIZE;

/// Rows the whole store can hold.
pub const TABLE_CAPACITY: usize = ROWS_PER_PAGE * MAX_PAGES;

// ---------------------------------------------------------------------------
// The row and its encoding
// ---------------------------------------------------------------------------

/// One table row, with its two buffers already padded to `NAME_SIZE`.
#[derive(Debug, PartialEq)]
pub struct Row {
    pub id: u32,
    pub username: Vec<u8>,
    pub email: Vec<u8>,
}

/// Model of a row.
pub struct RowView {
    pub id: u32,
    pub username: Seq<u8>,
    pub email: Seq<u8>,
}

impl View for Row {
    type V = RowView;

    open spec fn view(&self) -> RowView {
        RowView { id: self.id, username: self.username@, email: self.email@ }
    }
}

pub open spec fn row_wf_view(r: RowView) -> bool {
    r.username.len() == NAME_SIZE && r.email.len() == NAME_SIZE
}

/// `b` padded with zero bytes up to `NAME_SIZE`.
pub open spec fn zero_pad(b: Seq<u8>) -> Seq<u8> {
    b + Seq::new((NAME_SIZE - b.len()) as nat, |i: int| 0u8)
}

/// The four big-endian bytes of `x`.
pub open spec fn be_bytes(x: u32) -> Seq<u8> {
    seq![
        ((x / 0x1000000) % 256) as u8,
        ((x / 0x10000) % 256) as u8,
        ((x / 0x100) % 256) as u8,
        (x % 256) as u8,
    ]
}

/// The value of four big-endian bytes.
pub open spec fn be_val(b: Seq<u8>) -> int {
    b[0] * 0x1000000 + b[1] * 0x10000 + b[2] * 0x100 + b[3]
}

/// The occupied-slot sentinel.
pub open spec fn marker() -> Seq<u8> {
    seq![0xffu8, 0xffu8, 0xffu8, 0xffu8]
}

/// The `ROW_SIZE` bytes a row is stored as.
pub open spec fn spec_serialize(r: RowView) -> Seq<u8> {
    marker() + be_bytes(r.id) + r.username + r.email
}

/// The row a `ROW_SIZE`-byte record decodes to, if its sentinel marks
/// it occupied.
pub open spec fn spec_decode(b: Seq<u8>) -> Option<RowView> {
    if b.len() == ROW_SIZE && b.subrange(0, 4) == marker() {
        Some(
            RowView {
                id: be_val(b.subrange(4, 8)) as u32,
                username: b.subrange(8, 8 + NAME_SIZE as int),
                email: b.subrange(8 + NAME_SIZE as int, ROW_SIZE as int),
            },
        )
    } else {
        None
    }
}

proof fn lemma_be_round_trip(x: u32)
    ensures
        be_val(be_bytes(x)) == x,
{
    let b = be_bytes(x);
    assert(b[0] == ((x / 0x1000000) % 256) as u8);
    assert(x / 0x1000000 < 256) by {
        assert(0x1000000 * (x as int / 0x1000000) + (x as int) % 0x1000000 == x as int);
    }
    assert(b[0] as int == x as int / 0x1000000);
    assert(b[1] as int == (x as int / 0x10000) % 256);
    assert(b[2] as int == (x as int / 0x100) % 256);
    assert(b[3] as int == (x as int) % 256);
    assert((x as int / 0x1000000) * 0x1000000 + ((x as int / 0x10000) % 256) * 0x10000 + ((
    x as int / 0x100) % 256) * 0x100 + (x as int) % 256 == x as int) by {
        let x1 = x as int / 0x100;
        let x2 = x as int / 0x10000;
        let x3 = x as int / 0x1000000;
        assert(0x100 * x1 + (x as int) % 0x100 == x as int);
        assert(x1 / 0x100 == x2) by (nonlinear_arith)
            requires
                x1 == x as int / 0x100,
                x2 == x as int / 0x10000,
                x as int >= 0,
        ;
        assert(0x100 * (x1 / 0x100) + x1 % 0x100 == x1);
        assert(x2 / 0x100 == x3) by (nonlinear_arith)
            requires
                x2 == x as int / 0x10000,
                x3 == x as int / 0x1000000,
                x as int >= 0,
        ;
        assert(0x100 * (x2 / 0x100) + x2 % 0x100 == x2);
    }
}

/// Round trip: decoding an encoded row gives back exactly that row.
pub proof fn lemma_row_round_trip(r: RowView)
    requires
        row_wf_view(r),
    ensures
        spec_decode(spec_serialize(r)) == Some(r),
{
    let b = spec_serialize(r);
    assert(b.len() == ROW_SIZE);
    assert(b.subrange(0, 4) =~= marker());
    assert(b.subrange(4, 8) =~= be_bytes(r.id));
    lemma_be_round_trip(r.id);
    assert(be_val(b.subrange(4, 8)) as u32 == r.id);
    assert(b.subrange(8, 8 + NAME_SIZE as int) =~= r.username);
    assert(b.subrange(8 + NAME_SIZE as int, ROW_SIZE as int) =~= r.email);
}

impl Row {
    pub open spec fn wf(&self) -> bool {
        row_wf_view(self@)
    }

    /// Build a row from plain values, padding both buffers with zero
    /// bytes. Buffers longer than `NAME_SIZE` bytes are ruled out by
    /// contract; `Row::try_new` checks at run time instead.
    pub fn new(id: u32, username: &str, email: &str) -> (r: Row)
        requires
            username.spec_bytes().len() <= NAME_SIZE,
            email.spec_bytes().len() <= NAME_SIZE,
        ensures
            r.wf(),
            r@.id == id,
            r@.username == zero_pad(username.spec_bytes()),
            r@.email == zero_pad(email.spec_bytes()),
    {
        let ub = username.as_bytes_vec();
        let eb = email.as_bytes_vec();
        Row { id, username: pad_buffer(ub), email: pad_buffer(eb) }
    }

    /// Build a row from an id and the two buffers as raw bytes,
    /// padding both with zero bytes.
    pub fn from_bytes(id: u32, username: Vec<u8>, email: Vec<u8>) -> (r: Row)
        requires
            username@.len() <= NAME_SIZE,
            email@.len() <= NAME_SIZE,
        ensures
            r.wf(),
            r@.id == id,
            r@.username == zero_pad(username@),
            r@.email == zero_pad(email@),
    {
        Row { id, username: pad_buffer(username), email: pad_buffer(email) }
    }

    /// `Row::new` behind a run-time length check: `None` exactly when
    /// one of the buffers is longer than `NAME_SIZE` bytes.
    pub fn try_new(id: u32, username: &str, email: &str) -> (r: Option<Row>)
        ensures
            match r {
                Some(row) => {
                    &&& username.spec_bytes().len() <= NAME_SIZE
                    &&& email.spec_bytes().len() <= NAME_SIZE
                    &&& row.wf()
                    &&& row@.id == id
                    &&& row@.username == zero_pad(username.spec_bytes())
                    &&& row@.email == zero_pad(email.spec_bytes())
                },
                None => username.spec_bytes().len() > NAME_SIZE || email.spec_bytes().len()
                    > NAME_SIZE,
            },
    {
        let ub = username.as_bytes_vec();
        let eb = email.as_bytes_vec();
        if ub.len() > NAME_SIZE || eb.len() > NAME_SIZE {
            return None;
        }
        Some(Row::from_bytes(id, ub, eb))
    }

    /// Encode this row as its `ROW_SIZE`-byte record.
    pub fn serialize(&self) -> (out: Vec<u8>)
        requires
            self.wf(),
        ensures
            out@ == spec_serialize(self@),
            out@.len() == ROW_SIZE,
    {
        let mut out: Vec<u8> = Vec::new();
        out.push(0xff);
        out.push(0xff);
        out.push(0xff);
        out.push(0xff);
        let b0 = ((self.id / 0x1000000) % 256) as u8;
        let b1 = ((self.id / 0x10000) % 256) as u8;
        let b2 = ((self.id / 0x100) % 256) as u8;
        let b3 = (self.id % 256) as u8;
        out.push(b0);
        out.push(b1);
        out.push(b2);
        out.push(b3);
        proof {
            assert(out@ =~= marker() + be_bytes(self@.id));
        }
        push_all(&mut out, &self.username);
        push_all(&mut out, &self.email);
        proof {
            assert(out@ =~= spec_serialize(self@));
        }
        out
    }

    /// Decode the row at `index` within `page`, if its slot is marked
    /// occupied.
    pub fn from_page(page: &Page, index: usize) -> (r: Option<Row>)
        requires
            page.wf(),
            index < ROWS_PER_PAGE,
        ensures
            match r {
                Some(row) => spec_decode(record_bytes(page@, index as int)) == Some(row@)
                    && row.wf(),
                None => spec_decode(record_bytes(page@, index as int)) is None,
            },
    {
        let off = index * ROW_SIZE;
        proof {
            assert(off + ROW_SIZE <= PAGE_SIZE);
        }
        let ghost rec = record_bytes(page@, index as int);
        proof {
            assert(rec.len() == ROW_SIZE);
            assert forall|k: int| 0 <= k < ROW_SIZE implies rec[k] == page@[off + k] by {}
        }
        if page.byte_at(off) != 0xff || page.byte_at(off + 1) != 0xff || page.byte_at(off + 2)
            != 0xff || page.byte_at(off + 3) != 0xff {
            proof {
                assert(rec.subrange(0, 4) != marker()) by {
                    if rec.subrange(0, 4) == marker() {
                        assert(rec.subrange(0, 4)[0] == 0xff);
                        assert(rec.subrange(0, 4)[1] == 0xff);
                        assert(rec.subrange(0, 4)[2] == 0xff);
                        assert(rec.subrange(0, 4)[3] == 0xff);
                    }
                }
            }
            return None;
        }
        proof {
            assert(rec.subrange(0, 4) =~= marker());
        }
        let b0 = page.byte_at(off + 4);
        let b1 = page.byte_at(off + 5);
        let b2 = page.byte_at(off + 6);
        let b3 = page.byte_at(off + 7);
        let id: u32 = (b0 as u32) * 0x1000000 + (b1 as u32) * 0x10000 + (b2 as u32) * 0x100 + (
        b3 as u32);
        let username = page.read_at(off + 8, NAME_SIZE);
        let email = page.read_at(off + 8 + NAME_SIZE, NAME_SIZE);
        proof {
            assert(rec.subrange(4, 8) =~= page@.subrange(off + 4, off + 8));
            assert(be_val(rec.subrange(4, 8)) == id);
            assert(rec.subrange(8, 8 + NAME_SIZE as int) =~= page@.subrange(
                off + 8,
                off + 8 + NAME_SIZE,
            ));
            assert(rec.subrange(8 + NAME_SIZE as int, ROW_SIZE as int) =~= page@.subrange(
                off + 8 + NAME_SIZE,
                off + ROW_SIZE,
            ));
        }
        Some(Row { id, username, email })
    }
}

/// Extend `out` with a copy of `src`.
fn push_all(out: &mut Vec<u8>, src: &Vec<u8>)
    ensures
        final(out)@ == old(out)@ + src@,
{
    let n = src.len();
    let mut k: usize = 0;
    proof {
        assert(old(out)@ + src@.subrange(0, 0) =~= old(out)@);
    }
    while k < n
        invariant
            k <= n,
            n == src@.len(),
            out@ == old(out)@ + src@.subrange(0, k as int),
        decreases n - k,
    {
        let b = src[k];
        proof {
            assert(old(out)@ + src@.subrange(0, k + 1) =~= (old(out)@ + src@.subrange(
                0,
                k as int,
            )).push(src@[k as int]));
        }
        out.push(b);
        k = k + 1;
    }
    proof {
        assert(src@.subrange(0, n as int) =~= src@);
    }
}

/// Pad `bytes` with zero bytes up to `NAME_SIZE`.
fn pad_buffer(bytes: Vec<u8>) -> (out: Vec<u8>)
    requires
        bytes@.len() <= NAME_SIZE,
    ensures
        out@ == zero_pad(bytes@),
        out@.len() == NAME_SIZE,
{
    let ghost orig = bytes@;
    let mut out = bytes;
    while out.len() < NAME_SIZE
        invariant
            orig.len() <= out@.len() <= NAME_SIZE,
            out@.subrange(0, orig.len() as int) == orig,
            forall|j: int| orig.len() <= j < out@.len() ==> out@[j] == 0u8,
        decreases NAME_SIZE - out.len(),
    {
        proof {
            assert(out@.push(0u8).subrange(0, orig.len() as int) =~= out@.subrange(
                0,
                orig.len() as int,
            ));
        }
        out.push(0u8);
    }
    proof {
        assert(out@ =~= zero_pad(orig));
    }
    out
}

// ---------------------------------------------------------------------------
// Row addressing within the page store
// ---------------------------------------------------------------------------

/// The record slice of page `p` at slot `slot`.
pub open spec fn record_bytes(p: Seq<u8>, slot: int) -> Seq<u8> {
    p.subrange(slot * (ROW_SIZE as int), slot * (ROW_SIZE as int) + ROW_SIZE)
}

/// The `ROW_SIZE` bytes where row `idx` lives.
pub open spec fn record_at(v: PagerView, idx: int) -> Seq<u8> {
    record_bytes(page_of(v, idx / (ROWS_PER_PAGE as int)), idx % (ROWS_PER_PAGE as int))
}

/// The row stored at `idx`, if its slot is marked occupied.
pub open spec fn stored_row(v: PagerView, idx: int) -> Option<RowView> {
    spec_decode(record_at(v, idx))
}

/// Page persistence: flushing and reopening the flushed image preserves
/// every stored row.
pub proof fn lemma_stored_rows_persist(v: PagerView, idx: int)
    requires
        pager_wf_view(v),
        0 <= idx < TABLE_CAPACITY,
    ensures
        stored_row(open_view(flush_file(v)), idx) == stored_row(v, idx),
{
    crate::pager::lemma_flush_then_open(v);
    assert(0 <= idx / (ROWS_PER_PAGE as int) < MAX_PAGES);
}

// ---------------------------------------------------------------------------
// The table
// ---------------------------------------------------------------------------

/// Model of a table: the page store and the rows inserted so far.
pub struct TableView {
    pub store: PagerView,
    pub count: int,
}

pub open spec fn table_wf_view(v: TableView) -> bool {
    pager_wf_view(v.store) && 0 <= v.count <= TABLE_CAPACITY
}

/// The row store: a count of rows inserted this run, over the pager.
pub struct Table {
    pager: Pager,
    count: usize,
}

impl View for Table {
    type V = TableView;

    closed spec fn view(&self) -> TableView {
        TableView { store: self.pager@, count: self.count as int }
    }
}

impl Table {
    pub open spec fn wf(&self) -> bool {
        table_wf_view(self@)
    }

    /// A table over a fresh, zero-filled store: every slot reads as
    /// empty.
    pub fn new() -> (t: Table)
        ensures
            t.wf(),
            t@.count == 0,
            forall|idx: int| 0 <= idx < TABLE_CAPACITY ==> stored_row(t@.store, idx) is None,
    {
        let pager = Pager::new();
        let t = Table { pager, count: 0 };
        proof {
            assert forall|idx: int|
                0 <= idx < TABLE_CAPACITY implies stored_row(t@.store, idx) is None by {
                let p = idx / (ROWS_PER_PAGE as int);
                let s = idx % (ROWS_PER_PAGE as int);
                assert(0 <= p < MAX_PAGES);
                assert(0 <= s < ROWS_PER_PAGE);
                let rec = record_at(t@.store, idx);
                assert(rec[0] == t@.store.file[p][s * (ROW_SIZE as int)]);
                assert(rec[0] == 0u8);
                assert(rec.subrange(0, 4) != marker()) by {
                    if rec.subrange(0, 4) == marker() {
                        assert(rec.subrange(0, 4)[0] == 0xff);
                    }
                }
            }
        }
        t
    }

    /// A table opened on an existing file image of exactly `FILE_SIZE`
    /// bytes; the row count starts at zero, as for a fresh table.
    pub fn open(image: Vec<u8>) -> (r: Result<Table, PagerError>)
        ensures
            match r {
                Ok(t) => {
                    &&& image@.len() == crate::pager::FILE_SIZE
                    &&& t.wf()
                    &&& t@.count == 0
                    &&& forall|i: int| 0 <= i < MAX_PAGES ==> t@.store.slots[i] is None
                    &&& forall|i: int|
                        0 <= i < MAX_PAGES ==> #[trigger] t@.store.file[i] == image@.subrange(
                            i * (PAGE_SIZE as int),
                            (i + 1) * (PAGE_SIZE as int),
                        )
                },
                Err(e) => image@.len() != crate::pager::FILE_SIZE && e == PagerError::BadImage,
            },
    {
        match Pager::open(image) {
            Ok(pager) => Ok(Table { pager, count: 0 }),
            Err(e) => Err(e),
        }
    }

    /// How many rows this table holds.
    pub fn count(&self) -> (n: usize)
        ensures
            n as int == self@.count,
    {
        self.count
    }

    /// Append `row` at the next row index. A full table is a capacity
    /// error and changes nothing.
    pub fn insert(&mut self, row: Row) -> (r: Result<(), PagerError>)
        requires
            old(self).wf(),
            row.wf(),
        ensures
            final(self).wf(),
            match r {
                Ok(_) => {
                    &&& old(self)@.count < TABLE_CAPACITY
                    &&& final(self)@.count == old(self)@.count + 1
                    &&& record_at(final(self)@.store, old(self)@.count) == spec_serialize(row@)
                    &&& stored_row(final(self)@.store, old(self)@.count) == Some(row@)
                    &&& forall|idx: int|
                        0 <= idx < TABLE_CAPACITY && idx != old(self)@.count
                            ==> #[trigger] record_at(final(self)@.store, idx) == record_at(
                            old(self)@.store,
                            idx,
                        )
                    &&& final(self)@.store.file == old(self)@.store.file
                },
                Err(e) => {
                    &&& old(self)@.count >= TABLE_CAPACITY
                    &&& e == PagerError::Capacity
                    &&& final(self)@ == old(self)@
                },
            },
    {
        if self.count >= TABLE_CAPACITY {
            return Err(PagerError::Capacity);
        }
        let page_index = self.count / ROWS_PER_PAGE;
        let slot = self.count % ROWS_PER_PAGE;
        proof {
            assert(page_index < MAX_PAGES);
            assert(slot < ROWS_PER_PAGE);
        }
        let mut page = match self.pager.get_page(page_index) {
            Ok(p) => p,
            Err(_) => {
                proof {
                    assert(false);
                }
                return Err(PagerError::Capacity);
            },
        };
        let offset = slot * ROW_SIZE;
        proof {
            assert(offset + ROW_SIZE <= PAGE_SIZE);
        }
        let data = row.serialize();
        page.write_at(offset, &data);
        let ghost mid = self@;
        let ghost newpage = page@;
        match self.pager.put_page(page_index, page) {
            Ok(_) => {},
            Err(_) => {
                proof {
                    assert(false);
                }
                return Err(PagerError::Capacity);
            },
        }
        let ghost cnt = self.count as int;
        proof {
            let pi = page_index as int;
            let st = slot as int;
            let store0 = old(self)@.store;
            let store1 = self@.store;
            assert(page_of(store1, pi) == newpage);
            // the fresh record is exactly the serialized row
            assert(record_at(store1, cnt) =~= data@);
            lemma_row_round_trip(row@);
            // every other record is untouched
            assert forall|idx: int|
                0 <= idx < TABLE_CAPACITY && idx != cnt implies #[trigger] record_at(
                store1,
                idx,
            ) == record_at(store0, idx) by {
                let p = idx / (ROWS_PER_PAGE as int);
                let s = idx % (ROWS_PER_PAGE as int);
                assert(0 <= p < MAX_PAGES);
                assert(0 <= s < ROWS_PER_PAGE);
                if p == pi {
                    assert(s != st);
                    assert forall|k: int|
                        0 <= k < ROW_SIZE implies record_bytes(newpage, s)[k] == record_bytes(
                        page_of(store0, p),
                        s,
                    )[k] by {
                        let b = s * (ROW_SIZE as int) + k;
                        assert(b < offset || b >= offset + ROW_SIZE);
                    }
                    assert(record_bytes(newpage, s) =~= record_bytes(page_of(store0, p), s));
                } else {
                    assert(page_of(store1, p) == page_of(store0, p));
                }
            }
        }
        self.count = self.count + 1;
        Ok(())
    }

    /// The row at `index`, if its slot is marked occupied. Faults the
    /// page in if needed; no page's contents change.
    pub fn get_row(&mut self, index: usize) -> (r: Option<Row>)
        requires
            old(self).wf(),
            index < TABLE_CAPACITY,
        ensures
            final(self).wf(),
            final(self)@.count == old(self)@.count,
            final(self)@.store.file == old(self)@.store.file,
            forall|j: int|
                0 <= j < MAX_PAGES ==> page_of(final(self)@.store, j) == page_of(
                    old(self)@.store,
                    j,
                ),
            match r {
                Some(row) => stored_row(old(self)@.store, index as int) == Some(row@) && row.wf(),
                None => stored_row(old(self)@.store, index as int) is None,
            },
    {
        let page_index = index / ROWS_PER_PAGE;
        let slot = index % ROWS_PER_PAGE;
        proof {
            assert(page_index < MAX_PAGES);
            assert(slot < ROWS_PER_PAGE);
        }
        let page = match self.pager.get_page(page_index) {
            Ok(p) => p,
            Err(_) => {
                proof {
                    assert(false);
                }
                return None;
            },
        };
        Row::from_page(&page, slot)
    }

    /// Write every cached page back into the file image.
    pub fn flush(&mut self)
        requires
            old(self).wf(),
        ensures
            final(self).wf(),
            final(self)@.count == old(self)@.count,
            final(self)@.store.slots == old(self)@.store.slots,
            final(self)@.store.file == flush_file(old(self)@.store),
    {
        self.pager.flush();
    }

    /// A copy of the current file image; pages cached but not yet
    /// flushed are not part of it.
    pub fn image(&self) -> (out: Vec<u8>)
        requires
            self.wf(),
        ensures
            out@.len() == crate::pager::FILE_SIZE,
            forall|i: int|
                0 <= i < MAX_PAGES ==> out@.subrange(i * (PAGE_SIZE as int), (i + 1) * (
                PAGE_SIZE as int)) == #[trigger] self@.store.file[i],
    {
        self.pager.image()
    }
}

} // verus!
