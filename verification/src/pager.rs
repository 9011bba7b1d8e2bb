//! The pager: a cache of page buffers over the backing file.
//!
//! A pager has one slot for each of the hundred pages a table can use. A slot
//! is empty until its page is first asked for. At that moment the page is
//! materialized: zero-filled, and overlaid with what the file holds of it.
//! Pages are written back only by `flush`.

use vstd::prelude::*;
use vstd::slice::slice_subrange;
use crate::file::read_at;
use crate::file::FileData;
use crate::file::FileImage;
use crate::layout::PAGE_SIZE;
use crate::layout::TABLE_MAX_PAGES;
use crate::row::zeros;

verus! {

/// The backing file, its length when the pager was made, and the page slots.
/// An empty slot holds no bytes; a materialized one holds a whole page.
#[derive(Debug)]
pub struct Pager {
    pub file: FileImage,
    pub file_length: usize,
    pub pages: Vec<Vec<u8>>,
}

/// The mathematical value of a pager.
pub struct PagerData {
    pub file: FileData,
    pub file_length: nat,
    pub slots: Seq<Seq<u8>>,
}

impl View for Pager {
    type V = PagerData;

    open spec fn view(&self) -> PagerData {
        PagerData {
            file: self.file@,
            file_length: self.file_length as nat,
            slots: Seq::new(self.pages@.len(), |p: int| self.pages@[p]@),
        }
    }
}

impl PagerData {
    /// The pager over `file`, as it is before any page is asked for.
    pub open spec fn open(file: FileData) -> PagerData {
        PagerData {
            file,
            file_length: file.bytes.len(),
            slots: Seq::new(TABLE_MAX_PAGES as nat, |p: int| Seq::empty()),
        }
    }

    /// There are a hundred slots, each empty or a whole page, and the file
    /// is no shorter than it was when the pager was made.
    pub open spec fn wf(self) -> bool {
        &&& self.slots.len() == TABLE_MAX_PAGES
        &&& forall|p: int|
            0 <= p < self.slots.len() ==> (#[trigger] self.slots[p]).len() == 0
                || self.slots[p].len() == PAGE_SIZE
        &&& self.file_length <= self.file.bytes.len()
    }

    /// Page `p` has a buffer.
    pub open spec fn is_materialized(self, p: int) -> bool {
        self.slots[p].len() > 0
    }

    /// Number of pages of which the file held at least a part when the pager
    /// was made.
    pub open spec fn page_count(self) -> int {
        (self.file_length + PAGE_SIZE - 1) / (PAGE_SIZE as int)
    }

    /// What materializing page `p` puts into its slot: what the file holds of
    /// the page, and zero in the rest.
    pub open spec fn stored_page(self, p: int) -> Seq<u8> {
        if p < self.page_count() {
            let chunk = read_at(self.file.bytes, p * PAGE_SIZE, PAGE_SIZE as int);
            chunk + zeros((PAGE_SIZE - chunk.len()) as nat)
        } else {
            zeros(PAGE_SIZE as nat)
        }
    }

    /// The content of page `p`: its buffer if it has one, and otherwise what
    /// materializing it would give.
    pub open spec fn page(self, p: int) -> Seq<u8> {
        if self.is_materialized(p) {
            self.slots[p]
        } else {
            self.stored_page(p)
        }
    }

    /// The pager once page `p` has been asked for.
    pub open spec fn allocate_page(self, p: int) -> PagerData {
        if self.is_materialized(p) {
            self
        } else {
            PagerData { slots: self.slots.update(p, self.stored_page(p)), ..self }
        }
    }

    /// The pager once the first `size` bytes of page `p` have been written
    /// to the file.
    pub open spec fn flush(self, p: int, size: int) -> PagerData {
        PagerData { file: self.file.write_at(p * PAGE_SIZE, self.slots[p].take(size)), ..self }
    }

    /// The pager with `content` as the buffer of page `p`.
    pub open spec fn with_page(self, p: int, content: Seq<u8>) -> PagerData {
        PagerData { slots: self.slots.update(p, content), ..self }
    }
}

/// A page read from the file is a whole page.
pub proof fn lemma_stored_page_len(pager: PagerData, p: int)
    requires
        0 <= p,
    ensures
        pager.stored_page(p).len() == PAGE_SIZE,
{
}

/// Asking for a page keeps the pager well formed, leaves the content of every
/// page as it was, and gives a buffer to that page alone.
pub proof fn lemma_allocate_page(pager: PagerData, p: int)
    requires
        pager.wf(),
        0 <= p < TABLE_MAX_PAGES,
    ensures
        pager.allocate_page(p).wf(),
        pager.allocate_page(p).is_materialized(p),
        pager.allocate_page(p).file == pager.file,
        pager.allocate_page(p).file_length == pager.file_length,
        forall|q: int| 0 <= q < TABLE_MAX_PAGES ==> pager.allocate_page(p).page(q) == pager.page(q),
        forall|q: int|
            0 <= q < TABLE_MAX_PAGES && q != p ==> pager.allocate_page(p).slots[q]
                == pager.slots[q],
        pager.allocate_page(p).allocate_page(p) == pager.allocate_page(p),
{
    lemma_stored_page_len(pager, p);
}

/// A zero-filled page.
fn zeroed_page() -> (page: Vec<u8>)
    ensures
        page@ == zeros(PAGE_SIZE as nat),
{
    let mut page: Vec<u8> = Vec::with_capacity(PAGE_SIZE);
    let mut i: usize = 0;
    while i < PAGE_SIZE
        invariant
            i <= PAGE_SIZE,
            page@ == zeros(i as nat),
        decreases PAGE_SIZE - i,
    {
        page.push(0);
        assert(page@ =~= zeros((i + 1) as nat));
        i += 1;
    }
    page
}

impl Pager {
    /// A pager over `file`, with every slot empty.
    pub fn new(file: FileImage) -> (pager: Pager)
        ensures
            pager@ == PagerData::open(file@),
            pager@.wf(),
    {
        let file_length: usize = file.len();
        let mut pages: Vec<Vec<u8>> = Vec::with_capacity(TABLE_MAX_PAGES);
        let mut i: usize = 0;
        while i < TABLE_MAX_PAGES
            invariant
                i <= TABLE_MAX_PAGES,
                pages.len() == i,
                forall|p: int| 0 <= p < i ==> (#[trigger] pages@[p])@ == Seq::<u8>::empty(),
            decreases TABLE_MAX_PAGES - i,
        {
            pages.push(Vec::new());
            i += 1;
        }
        let pager = Pager { file, file_length, pages };
        assert(pager@.slots =~= PagerData::open(file@).slots);
        pager
    }

    /// Whether the pager is well formed.
    pub fn is_well_formed(&self) -> (b: bool)
        ensures
            b == self@.wf(),
    {
        if self.pages.len() != TABLE_MAX_PAGES || self.file_length > self.file.len() {
            return false;
        }
        let mut p: usize = 0;
        while p < TABLE_MAX_PAGES
            invariant
                p <= TABLE_MAX_PAGES,
                self.pages.len() == TABLE_MAX_PAGES,
                forall|q: int|
                    0 <= q < p ==> (#[trigger] self@.slots[q]).len() == 0 || self@.slots[q].len()
                        == PAGE_SIZE,
            decreases TABLE_MAX_PAGES - p,
        {
            let len: usize = self.pages[p].len();
            if len != 0 && len != PAGE_SIZE {
                assert(self@.slots[p as int].len() == len);
                return false;
            }
            assert(self@.slots[p as int].len() == len);
            p += 1;
        }
        true
    }

    /// Whether page `page_num` has a buffer.
    pub fn is_materialized(&self, page_num: usize) -> (b: bool)
        requires
            page_num < self@.slots.len(),
        ensures
            b == self@.is_materialized(page_num as int),
    {
        self.pages[page_num].len() > 0
    }

    /// Gives page `page_num` its buffer, unless it has one: a zero-filled
    /// page, overlaid with what the file holds of it.
    pub fn allocate_page(&mut self, page_num: usize)
        requires
            old(self)@.wf(),
            page_num < TABLE_MAX_PAGES,
        ensures
            final(self)@ == old(self)@.allocate_page(page_num as int),
            final(self)@.wf(),
    {
        proof {
            lemma_allocate_page(self@, page_num as int);
        }
        if self.pages[page_num].len() == 0 {
            let mut page = zeroed_page();
            let mut npages: usize = self.file_length / PAGE_SIZE;
            if self.file_length % PAGE_SIZE != 0 {
                npages += 1;
            }
            assert(npages == self@.page_count());
            if page_num < npages {
                self.file.read_at(page_num * PAGE_SIZE, &mut page);
            }
            assert(page@ =~= self@.stored_page(page_num as int));
            self.pages[page_num] = page;
            assert(self@.slots =~= old(self)@.slots.update(
                page_num as int,
                old(self)@.stored_page(page_num as int),
            ));
        }
    }

    /// Writes the first `size` bytes of page `page_num` to the file, at the
    /// page's place.
    pub fn flush(&mut self, page_num: usize, size: usize)
        requires
            old(self)@.wf(),
            page_num < TABLE_MAX_PAGES,
            old(self)@.is_materialized(page_num as int),
            0 < size <= PAGE_SIZE,
        ensures
            final(self)@ == old(self)@.flush(page_num as int, size as int),
            final(self)@.wf(),
    {
        let chunk = slice_subrange(self.pages[page_num].as_slice(), 0, size);
        assert(chunk@ =~= self@.slots[page_num as int].take(size as int));
        self.file.write_at(page_num * PAGE_SIZE, chunk);
        assert(self@.slots =~= old(self)@.slots);
    }
}

} // verus!
