//! Fixed-capacity page cache over an in-memory file image.
//!
//! The backing file is modelled as `MAX_PAGES` pages of `PAGE_SIZE`
//! bytes each, held in memory; byte offset `i * PAGE_SIZE` of the image
//! holds page `i`, with no header or version tag. A page is faulted
//! into its cache slot on first access and stays resident; `flush`
//! writes every cached page back into the file image. Reading the image
//! from disk and writing it back is the caller's concern, through
//! `open` and `image`. A page index at or past `MAX_PAGES` is a
//! capacity error, never a silent wrap.

use vstd::prelude::*;

use crate::{MAX_PAGES, PAGE_SIZE};

verus! {

/// Total size in bytes of the backing file image.
pub const FILE_SIZE: usize = PAGE_SIZE * MAX_PAGES;

/// A typed failure of the page store.
#[derive(Debug, PartialEq, Eq, Structural, Clone, Copy)]
pub enum PagerError {
    /// A page index at or past `MAX_PAGES`, or a full table.
    Capacity,
    /// An image whose length is not `FILE_SIZE`.
    BadImage,
}

/// One fixed-size page of raw bytes.
#[derive(Debug)]
pub struct Page {
    data: Vec<u8>,
}

impl View for Page {
    type V = Seq<u8>;

    closed spec fn view(&self) -> Seq<u8> {
        self.data@
    }
}

impl Clone for Page {
    fn clone(&self) -> (r: Page)
        ensures
            r@ == self@,
    {
        Page { data: self.data.clone() }
    }
}

impl Page {
    /// A page holds exactly `PAGE_SIZE` bytes.
    pub open spec fn wf(&self) -> bool {
        self@.len() == PAGE_SIZE
    }

    /// A fresh, zero-filled page.
    pub fn new() -> (p: Page)
        ensures
            p.wf(),
            forall|i: int| 0 <= i < PAGE_SIZE ==> p@[i] == 0u8,
    {
        let data: Vec<u8> = vec![0u8; PAGE_SIZE];
        Page { data }
    }

    /// The byte at `offset`.
    pub fn byte_at(&self, offset: usize) -> (b: u8)
        requires
            self.wf(),
            offset < PAGE_SIZE,
        ensures
            b == self@[offset as int],
    {
        self.data[offset]
    }

    /// Copy of the bytes `[offset, offset + len)`.
    pub fn read_at(&self, offset: usize, len: usize) -> (out: Vec<u8>)
        requires
            self.wf(),
            offset + len <= PAGE_SIZE,
        ensures
            out@ == self@.subrange(offset as int, offset + len),
    {
        let mut out: Vec<u8> = Vec::new();
        let mut j: usize = 0;
        proof {
            assert(self@.subrange(offset as int, offset as int) =~= Seq::<u8>::empty());
        }
        while j < len
            invariant
                j <= len,
                self.wf(),
                offset + len <= PAGE_SIZE,
                out@ == self@.subrange(offset as int, offset + j),
            decreases len - j,
        {
            let b = self.data[offset + j];
            proof {
                assert(self@.subrange(offset as int, offset + j + 1) =~= self@.subrange(
                    offset as int,
                    offset + j,
                ).push(self@[offset + j]));
            }
            out.push(b);
            j = j + 1;
        }
        out
    }

    /// Overwrite the bytes `[offset, offset + bytes.len())`.
    pub fn write_at(&mut self, offset: usize, bytes: &Vec<u8>)
        requires
            old(self).wf(),
            offset + bytes@.len() <= PAGE_SIZE,
        ensures
            final(self).wf(),
            forall|k: int|
                0 <= k < PAGE_SIZE ==> final(self)@[k] == (if offset <= k < offset + bytes@.len() {
                    bytes@[k - offset]
                } else {
                    old(self)@[k]
                }),
    {
        let n = bytes.len();
        let mut j: usize = 0;
        while j < n
            invariant
                j <= n,
                n == bytes@.len(),
                offset + n <= PAGE_SIZE,
                self@.len() == PAGE_SIZE,
                forall|k: int|
                    0 <= k < PAGE_SIZE && !(offset <= k < offset + j) ==> self@[k] == old(
                        self,
                    )@[k],
                forall|k: int| offset <= k < offset + j ==> self@[k] == bytes@[k - offset],
            decreases n - j,
        {
            let b = bytes[j];
            self.data.set(offset + j, b);
            j = j + 1;
        }
    }
}

// ---------------------------------------------------------------------------
// Model
// ---------------------------------------------------------------------------

/// Model of a pager: the file image as a sequence of pages, and the
/// cache slots, each empty or holding a page.
pub struct PagerView {
    pub file: Seq<Seq<u8>>,
    pub slots: Seq<Option<Seq<u8>>>,
}

pub open spec fn pager_wf_view(v: PagerView) -> bool {
    &&& v.file.len() == MAX_PAGES
    &&& v.slots.len() == MAX_PAGES
    &&& forall|i: int| 0 <= i < MAX_PAGES ==> (#[trigger] v.file[i]).len() == PAGE_SIZE
    &&& forall|i: int|
        0 <= i < MAX_PAGES && (#[trigger] v.slots[i]) is Some ==> v.slots[i]->0.len() == PAGE_SIZE
}

/// The current contents of page `i`: the cached page if resident, else
/// the page of the file image.
pub open spec fn page_of(v: PagerView, i: int) -> Seq<u8> {
    if v.slots[i] is Some {
        v.slots[i]->0
    } else {
        v.file[i]
    }
}

/// The file image after a flush: every cached page written back.
pub open spec fn flush_file(v: PagerView) -> Seq<Seq<u8>> {
    Seq::new(v.file.len(), |i: int| page_of(v, i))
}

/// The whole state after a flush: the cache is untouched.
pub open spec fn flush_view(v: PagerView) -> PagerView {
    PagerView { file: flush_file(v), slots: v.slots }
}

/// The state of a pager freshly opened on the given file image.
pub open spec fn open_view(file: Seq<Seq<u8>>) -> PagerView {
    PagerView { file, slots: Seq::new(file.len(), |i: int| Option::<Seq<u8>>::None) }
}

// ---------------------------------------------------------------------------
// Laws
// ---------------------------------------------------------------------------

/// Idempotent flush: flushing twice with no intervening writes leaves
/// exactly the state — and so exactly the file image — that one flush
/// leaves.
pub proof fn lemma_flush_idempotent(v: PagerView)
    requires
        pager_wf_view(v),
    ensures
        flush_view(flush_view(v)) == flush_view(v),
{
    assert(flush_file(flush_view(v)) =~= flush_file(v));
}

/// Reopening on a flushed image shows every page exactly as it was
/// before the flush.
pub proof fn lemma_flush_then_open(v: PagerView)
    requires
        pager_wf_view(v),
    ensures
        forall|i: int| 0 <= i < MAX_PAGES ==> page_of(open_view(flush_file(v)), i) == page_of(v, i),
{
}

// ---------------------------------------------------------------------------
// The pager
// ---------------------------------------------------------------------------

/// The page store: an in-memory file image and the page cache over it.
pub struct Pager {
    file: Vec<Page>,
    slots: Vec<Option<Page>>,
}

impl View for Pager {
    type V = PagerView;

    closed spec fn view(&self) -> PagerView {
        PagerView {
            file: self.file@.map_values(|p: Page| p@),
            slots: self.slots@.map_values(
                |s: Option<Page>|
                    match s {
                        Some(p) => Some(p@),
                        None => None,
                    },
            ),
        }
    }
}

impl Pager {
    pub open spec fn wf(&self) -> bool {
        pager_wf_view(self@)
    }

    /// A pager over a fresh, zero-filled file image, with an empty cache.
    pub fn new() -> (p: Pager)
        ensures
            p.wf(),
            forall|i: int| 0 <= i < MAX_PAGES ==> p@.slots[i] is None,
            forall|i: int, b: int|
                0 <= i < MAX_PAGES && 0 <= b < PAGE_SIZE ==> #[trigger] p@.file[i][b] == 0u8,
    {
        let mut file: Vec<Page> = Vec::new();
        let mut slots: Vec<Option<Page>> = Vec::new();
        let mut i: usize = 0;
        while i < MAX_PAGES
            invariant
                i <= MAX_PAGES,
                file@.len() == i,
                slots@.len() == i,
                forall|j: int| 0 <= j < i ==> (#[trigger] file@[j]).wf(),
                forall|j: int, b: int|
                    0 <= j < i && 0 <= b < PAGE_SIZE ==> #[trigger] file@[j]@[b] == 0u8,
                forall|j: int| 0 <= j < i ==> (#[trigger] slots@[j]) is None,
            decreases MAX_PAGES - i,
        {
            file.push(Page::new());
            slots.push(None);
            i = i + 1;
        }
        let p = Pager { file, slots };
        p
    }

    /// A pager opened on an existing file image, with an empty cache.
    /// The image must be exactly `FILE_SIZE` bytes.
    pub fn open(image: Vec<u8>) -> (r: Result<Pager, PagerError>)
        ensures
            match r {
                Ok(p) => {
                    &&& image@.len() == FILE_SIZE
                    &&& p.wf()
                    &&& forall|i: int| 0 <= i < MAX_PAGES ==> p@.slots[i] is None
                    &&& forall|i: int|
                        0 <= i < MAX_PAGES ==> #[trigger] p@.file[i] == image@.subrange(
                            i * (PAGE_SIZE as int),
                            (i + 1) * (PAGE_SIZE as int),
                        )
                },
                Err(e) => image@.len() != FILE_SIZE && e == PagerError::BadImage,
            },
    {
        if image.len() != FILE_SIZE {
            return Err(PagerError::BadImage);
        }
        let mut file: Vec<Page> = Vec::new();
        let mut slots: Vec<Option<Page>> = Vec::new();
        let mut i: usize = 0;
        while i < MAX_PAGES
            invariant
                i <= MAX_PAGES,
                image@.len() == FILE_SIZE,
                file@.len() == i,
                slots@.len() == i,
                forall|j: int| 0 <= j < i ==> (#[trigger] file@[j]).wf(),
                forall|j: int|
                    0 <= j < i ==> (#[trigger] file@[j])@ == image@.subrange(
                        j * (PAGE_SIZE as int),
                        (j + 1) * (PAGE_SIZE as int),
                    ),
                forall|j: int| 0 <= j < i ==> (#[trigger] slots@[j]) is None,
            decreases MAX_PAGES - i,
        {
            let mut data: Vec<u8> = Vec::new();
            let base = i * PAGE_SIZE;
            let mut j: usize = 0;
            proof {
                assert(image@.subrange(base as int, base as int) =~= Seq::<u8>::empty());
            }
            while j < PAGE_SIZE
                invariant
                    j <= PAGE_SIZE,
                    i < MAX_PAGES,
                    base == i * PAGE_SIZE,
                    image@.len() == FILE_SIZE,
                    data@ == image@.subrange(base as int, base + j),
                decreases PAGE_SIZE - j,
            {
                let b = image[base + j];
                proof {
                    assert(image@.subrange(base as int, base + j + 1) =~= image@.subrange(
                        base as int,
                        base + j,
                    ).push(image@[base + j]));
                }
                data.push(b);
                j = j + 1;
            }
            file.push(Page { data });
            slots.push(None);
            i = i + 1;
        }
        Ok(Pager { file, slots })
    }

    /// A copy of the current file image, page `i` at byte offset
    /// `i * PAGE_SIZE`. Cached pages not yet flushed are not part of it.
    pub fn image(&self) -> (out: Vec<u8>)
        requires
            self.wf(),
        ensures
            out@.len() == FILE_SIZE,
            forall|i: int|
                0 <= i < MAX_PAGES ==> out@.subrange(i * (PAGE_SIZE as int), (i + 1) * (
                PAGE_SIZE as int)) == #[trigger] self@.file[i],
    {
        let mut out: Vec<u8> = Vec::new();
        let mut i: usize = 0;
        while i < MAX_PAGES
            invariant
                i <= MAX_PAGES,
                self.wf(),
                out@.len() == i * PAGE_SIZE,
                forall|k: int, m: int|
                    0 <= k < i && 0 <= m < PAGE_SIZE ==> #[trigger] out@[k * (PAGE_SIZE as int)
                        + m] == self@.file[k][m],
            decreases MAX_PAGES - i,
        {
            proof {
                assert(self@.file[i as int] == self.file@[i as int]@);
                assert(self@.file[i as int].len() == PAGE_SIZE);
            }
            let mut j: usize = 0;
            while j < PAGE_SIZE
                invariant
                    j <= PAGE_SIZE,
                    i < MAX_PAGES,
                    self.wf(),
                    self.file@[i as int]@ == self@.file[i as int],
                    self@.file[i as int].len() == PAGE_SIZE,
                    out@.len() == i * PAGE_SIZE + j,
                    forall|k: int, m: int|
                        0 <= k < i && 0 <= m < PAGE_SIZE ==> #[trigger] out@[k * (PAGE_SIZE as int)
                            + m] == self@.file[k][m],
                    forall|m: int|
                        0 <= m < j ==> out@[i * (PAGE_SIZE as int) + m] == self@.file[i as int][m],
                decreases PAGE_SIZE - j,
            {
                let b = self.file[i].data[j];
                out.push(b);
                j = j + 1;
            }
            i = i + 1;
        }
        proof {
            assert forall|i: int|
                0 <= i < MAX_PAGES implies out@.subrange(
                i * (PAGE_SIZE as int),
                (i + 1) * (PAGE_SIZE as int),
            ) == #[trigger] self@.file[i] by {
                let sub = out@.subrange(i * (PAGE_SIZE as int), (i + 1) * (PAGE_SIZE as int));
                assert((i + 1) * (PAGE_SIZE as int) == i * (PAGE_SIZE as int) + PAGE_SIZE);
                assert((i + 1) * (PAGE_SIZE as int) <= out@.len());
                assert(self@.file[i].len() == PAGE_SIZE);
                assert forall|m: int| 0 <= m < PAGE_SIZE implies sub[m] == self@.file[i][m] by {
                    assert(sub[m] == out@[i * (PAGE_SIZE as int) + m]);
                }
                assert(sub =~= self@.file[i]);
            }
        }
        out
    }

    /// The page at `page_index`: the cached copy if resident, else the
    /// page faulted in from the file image (and cached). An index at or
    /// past `MAX_PAGES` is a capacity error and changes nothing.
    pub fn get_page(&mut self, page_index: usize) -> (r: Result<Page, PagerError>)
        requires
            old(self).wf(),
        ensures
            final(self).wf(),
            match r {
                Ok(page) => {
                    &&& page_index < MAX_PAGES
                    &&& page.wf()
                    &&& page@ == page_of(old(self)@, page_index as int)
                    &&& final(self)@.file == old(self)@.file
                    &&& final(self)@.slots == old(self)@.slots.update(
                        page_index as int,
                        Some(page@),
                    )
                    &&& forall|j: int|
                        0 <= j < MAX_PAGES ==> page_of(final(self)@, j) == page_of(old(self)@, j)
                },
                Err(e) => {
                    &&& page_index >= MAX_PAGES
                    &&& e == PagerError::Capacity
                    &&& final(self)@ == old(self)@
                },
            },
    {
        if page_index >= MAX_PAGES {
            return Err(PagerError::Capacity);
        }
        if let Some(p) = &self.slots[page_index] {
            let q = p.clone();
            proof {
                assert(self@.slots[page_index as int] == Some(q@));
                assert(q@.len() == PAGE_SIZE);
                assert(self@.slots =~= self@.slots.update(page_index as int, Some(q@)));
            }
            return Ok(q);
        }
        let page = self.file[page_index].clone();
        proof {
            assert(page@ == old(self)@.file[page_index as int]);
            assert(page@.len() == PAGE_SIZE);
        }
        let copy = page.clone();
        self.slots.set(page_index, Some(copy));
        proof {
            assert(self@.slots =~= old(self)@.slots.update(page_index as int, Some(page@)));
            assert(self@.file =~= old(self)@.file);
            assert forall|i: int|
                0 <= i < MAX_PAGES && (#[trigger] self@.slots[i]) is Some implies self@.slots[
            i]->0.len() == PAGE_SIZE by {
                if i != page_index as int {
                    assert(self@.slots[i] == old(self)@.slots[i]);
                }
            }
        }
        Ok(page)
    }

    /// Replace the cached copy of page `page_index`. An index at or
    /// past `MAX_PAGES` is a capacity error and changes nothing.
    pub fn put_page(&mut self, page_index: usize, page: Page) -> (r: Result<(), PagerError>)
        requires
            old(self).wf(),
            page.wf(),
        ensures
            final(self).wf(),
            match r {
                Ok(_) => {
                    &&& page_index < MAX_PAGES
                    &&& final(self)@.file == old(self)@.file
                    &&& final(self)@.slots == old(self)@.slots.update(
                        page_index as int,
                        Some(page@),
                    )
                    &&& page_of(final(self)@, page_index as int) == page@
                    &&& forall|j: int|
                        0 <= j < MAX_PAGES && j != page_index ==> page_of(final(self)@, j)
                            == page_of(old(self)@, j)
                },
                Err(e) => {
                    &&& page_index >= MAX_PAGES
                    &&& e == PagerError::Capacity
                    &&& final(self)@ == old(self)@
                },
            },
    {
        if page_index >= MAX_PAGES {
            return Err(PagerError::Capacity);
        }
        let ghost pv = page@;
        self.slots.set(page_index, Some(page));
        proof {
            assert(self@.slots =~= old(self)@.slots.update(page_index as int, Some(pv)));
            assert(self@.file =~= old(self)@.file);
        }
        Ok(())
    }

    /// Write every cached page back into the file image; pages never
    /// cached are left untouched. The cache itself is unchanged.
    pub fn flush(&mut self)
        requires
            old(self).wf(),
        ensures
            final(self).wf(),
            final(self)@.slots == old(self)@.slots,
            final(self)@.file == flush_file(old(self)@),
    {
        let mut i: usize = 0;
        while i < MAX_PAGES
            invariant
                i <= MAX_PAGES,
                self.wf(),
                self@.slots == old(self)@.slots,
                self@.file.len() == MAX_PAGES,
                forall|j: int|
                    0 <= j < i ==> #[trigger] self@.file[j] == page_of(old(self)@, j),
                forall|j: int|
                    i <= j < MAX_PAGES ==> #[trigger] self@.file[j] == old(self)@.file[j],
            decreases MAX_PAGES - i,
        {
            let ghost pre = self@;
            if let Some(p) = &self.slots[i] {
                let q = p.clone();
                proof {
                    assert(pre.slots[i as int] == Some(q@));
                    assert(q@.len() == PAGE_SIZE);
                }
                self.file.set(i, q);
                proof {
                    assert(self@.file =~= pre.file.update(i as int, q@));
                    assert(self@.slots =~= pre.slots);
                    assert(self@.file[i as int] == page_of(old(self)@, i as int));
                }
            } else {
                proof {
                    assert(pre.slots[i as int] is None);
                    assert(self@.file[i as int] == page_of(old(self)@, i as int));
                }
            }
            i = i + 1;
        }
        proof {
            assert(self@.file =~= flush_file(old(self)@));
        }
    }
}

} // verus!
