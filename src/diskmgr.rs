use vstd::prelude::*;

use crate::shared::{PageId, INVALID_PAGE_ID, PAGE_SIZE};

verus! {

/// The bookkeeping of the disk manager, which owns the backing file: how many
/// writes and flushes it made, the last page it wrote, and how many pages the
/// file holds. Page `p` lives at byte offset `p * PAGE_SIZE`.
pub struct DiskMgrCtx {
    num_writes: usize,
    last_write: isize,
    num_flushes: usize,
    num_pages: u64,
}

/// What the disk manager knows of its file.
pub struct DiskState {
    pub num_writes: nat,
    pub num_flushes: nat,
    pub last_write: int,
    /// The file length divided by `PAGE_SIZE`.
    pub num_pages: nat,
}

impl DiskState {
    /// The state of a freshly created (truncated) file.
    pub open spec fn fresh() -> DiskState {
        DiskState { num_writes: 0, num_flushes: 0, last_write: INVALID_PAGE_ID as int, num_pages: 0 }
    }

    /// The page id that the next append assigns.
    pub open spec fn next_page_id(self) -> int {
        self.num_pages as int
    }

    /// The state after page `p` was written and flushed; a write past the end
    /// of the file extends it.
    pub open spec fn after_write(self, p: int) -> DiskState {
        DiskState {
            num_writes: self.num_writes + 1,
            num_flushes: self.num_flushes + 1,
            last_write: p,
            num_pages: if p + 1 > self.num_pages { (p + 1) as nat } else { self.num_pages },
        }
    }

    /// The state after one page was appended and flushed.
    pub open spec fn after_append(self) -> DiskState {
        self.after_write(self.next_page_id())
    }

    /// The state after `n` appends in a row.
    pub open spec fn after_appends(self, n: nat) -> DiskState
        decreases n,
    {
        if n == 0 {
            self
        } else {
            self.after_appends((n - 1) as nat).after_append()
        }
    }
}

/// The byte offset at which page `p` starts.
pub open spec fn page_offset_of(p: int) -> int {
    p * PAGE_SIZE
}

impl View for DiskMgrCtx {
    type V = DiskState;

    closed spec fn view(&self) -> DiskState {
        DiskState {
            num_writes: self.num_writes as nat,
            num_flushes: self.num_flushes as nat,
            last_write: self.last_write as int,
            num_pages: self.num_pages as nat,
        }
    }
}

impl DiskMgrCtx {
    /// Bookkeeping for a file that was just created or truncated.
    pub fn create() -> (r: DiskMgrCtx)
        ensures
            r@ == DiskState::fresh(),
    {
        DiskMgrCtx { num_writes: 0, last_write: INVALID_PAGE_ID, num_flushes: 0, num_pages: 0 }
    }

    pub fn num_writes(&self) -> (r: usize)
        ensures
            r == self@.num_writes,
    {
        self.num_writes
    }

    pub fn num_flushes(&self) -> (r: usize)
        ensures
            r == self@.num_flushes,
    {
        self.num_flushes
    }

    pub fn last_write(&self) -> (r: PageId)
        ensures
            r == self@.last_write,
    {
        self.last_write
    }

    pub fn num_pages(&self) -> (r: u64)
        ensures
            r == self@.num_pages,
    {
        self.num_pages
    }

    /// Whether page `page_id` lies within the file, so that it can be read.
    pub fn contains_page(&self, page_id: PageId) -> (r: bool)
        ensures
            r == (0 <= page_id < self@.num_pages),
    {
        page_id >= 0 && (page_id as u64) < self.num_pages
    }

    /// The byte offset of page `page_id`, or `None` where the id is invalid or
    /// the offset does not fit in a `u64`.
    pub fn page_offset(page_id: PageId) -> (r: Option<u64>)
        ensures
            r.is_some() <==> 0 <= page_id && page_offset_of(page_id as int) <= u64::MAX,
            r matches Some(off) ==> off == page_offset_of(page_id as int),
    {
        if page_id < 0 {
            return None;
        }
        (page_id as u64).checked_mul(PAGE_SIZE as u64)
    }

    /// Records that page `page_id` was written and flushed.
    pub fn write_page(&mut self, page_id: PageId)
        requires
            0 <= page_id,
            old(self)@.num_writes < usize::MAX,
            old(self)@.num_flushes < usize::MAX,
        ensures
            final(self)@ == old(self)@.after_write(page_id as int),
    {
        self.num_writes = self.num_writes + 1;
        self.num_flushes = self.num_flushes + 1;
        self.last_write = page_id;
        if page_id as u64 >= self.num_pages {
            self.num_pages = page_id as u64 + 1;
        }
    }

    /// Records that one page was appended at the end of the file and flushed,
    /// and returns its id: the file length in pages before the append.
    pub fn append_page(&mut self) -> (r: PageId)
        requires
            old(self)@.num_pages < isize::MAX,
            old(self)@.num_writes < usize::MAX,
            old(self)@.num_flushes < usize::MAX,
        ensures
            r == old(self)@.next_page_id(),
            final(self)@ == old(self)@.after_append(),
    {
        let page_id = self.num_pages as isize;
        self.write_page(page_id);
        page_id
    }
}

/// Page ids come from appends alone, so they are handed out in call order
/// without gaps: the `k`-th of a run of appends (counting from zero) returns
/// the starting length of the file plus `k`, and from a fresh file the ids are
/// `0, 1, 2, ...`.
pub proof fn lemma_monotonic_allocation(d: DiskState, n: nat)
    ensures
        forall|k: nat| k < n ==> #[trigger] d.after_appends(k).next_page_id() == d.next_page_id() + k,
        d == DiskState::fresh() ==> forall|k: nat|
            k < n ==> #[trigger] d.after_appends(k).next_page_id() == k,
    decreases n,
{
    if n > 0 {
        lemma_monotonic_allocation(d, (n - 1) as nat);
        if n >= 2 {
            let m = (n - 2) as nat;
            assert(d.after_appends((n - 1) as nat) == d.after_appends(m).after_append());
        }
        assert(d.after_appends(0) == d);
    }
}

} // verus!
