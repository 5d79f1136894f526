use std::collections::HashMap;

use vstd::prelude::*;

use crate::lruk::{
    lemma_infinite_distance_evicted_first, lemma_victim_unique, LRUKReplacerInternal, Replacer,
    ReplacerState, LRUK_REPLACER_K,
};
use crate::page::{empty, zero_page, Page};
use crate::shared::{FrameId, PageId, BUFFER_POOL_SIZE, INVALID_PAGE_ID, PAGE_SIZE};

verus! {

broadcast use {vstd::std_specs::hash::group_hash_axioms, crate::lruk::lemma_replacer_sizes};

/// What a frame holds: a page's contents, the frame's own id, the id of the
/// page it caches (`INVALID_PAGE_ID` when free), its pin count and whether its
/// contents differ from the copy on disk.
pub struct FrameState {
    pub page: Seq<u8>,
    pub id: FrameId,
    pub page_id: PageId,
    pub pin_count: nat,
    pub dirty: bool,
}

/// An unused frame.
pub open spec fn free_frame(id: FrameId) -> FrameState {
    FrameState { page: zero_page(), id, page_id: INVALID_PAGE_ID, pin_count: 0, dirty: false }
}

/// A frame that was just given page `page_id` with contents `page`, pinned once.
pub open spec fn loaded_frame(id: FrameId, page_id: PageId, page: Seq<u8>) -> FrameState {
    FrameState { page, id, page_id, pin_count: 1, dirty: false }
}

/// One buffer-pool slot.
pub struct BufferPoolFrameInternal {
    page: Page,
    id: FrameId,
    page_id: PageId,
    pin_count: usize,
    dirty: bool,
}

impl View for BufferPoolFrameInternal {
    type V = FrameState;

    closed spec fn view(&self) -> FrameState {
        FrameState {
            page: self.page@,
            id: self.id,
            page_id: self.page_id,
            pin_count: self.pin_count as nat,
            dirty: self.dirty,
        }
    }
}

/// Access to a frame's contents and dirty flag.
pub trait FrameApi: View<V = FrameState> {
    fn data(&self) -> (r: Page)
        ensures
            r@ == self@.page,
    ;

    fn is_dirty(&self) -> (r: bool)
        ensures
            r == self@.dirty,
    ;

    /// Zeroes the frame's contents and keeps its metadata.
    fn reset(&mut self)
        ensures
            final(self)@ == (FrameState { page: zero_page(), ..old(self)@ }),
    ;
}

impl FrameApi for BufferPoolFrameInternal {
    fn data(&self) -> (r: Page) {
        self.page
    }

    fn is_dirty(&self) -> (r: bool) {
        self.dirty
    }

    fn reset(&mut self) {
        self.page = empty();
    }
}

impl BufferPoolFrameInternal {
    /// A free frame with id `id`.
    pub fn free(id: FrameId) -> (r: Self)
        ensures
            r@ == free_frame(id),
    {
        BufferPoolFrameInternal { page: empty(), id, page_id: INVALID_PAGE_ID, pin_count: 0, dirty: false }
    }

    pub fn id(&self) -> (r: FrameId)
        ensures
            r == self@.id,
    {
        self.id
    }

    pub fn page_id(&self) -> (r: PageId)
        ensures
            r == self@.page_id,
    {
        self.page_id
    }

    pub fn pin_count(&self) -> (r: usize)
        ensures
            r == self@.pin_count,
    {
        self.pin_count
    }
}

/// A page whose contents must be written to disk.
pub struct WriteBack {
    pub page_id: PageId,
    pub data: Page,
}

/// Where a page was placed: its frame, and the dirty page that the frame held
/// before, which the caller writes to disk.
pub struct Installed {
    pub frame_id: FrameId,
    pub write_back: Option<WriteBack>,
}

/// The buffer pool: frames `1..=capacity` (frame `f` at index `f - 1`), the
/// FIFO list of unused frames, the map from resident page ids to frames, and
/// the replacer.
pub struct PoolState {
    pub frames: Seq<FrameState>,
    pub free_list: Seq<FrameId>,
    pub page_table: Map<PageId, FrameId>,
    pub replacer: ReplacerState,
}

impl PoolState {
    pub open spec fn valid_frame(self, f: int) -> bool {
        1 <= f <= self.frames.len()
    }

    pub open spec fn frame(self, f: int) -> FrameState {
        self.frames[f - 1]
    }

    pub open spec fn resident(self, p: PageId) -> bool {
        self.page_table.contains_key(p)
    }

    /// The frame that holds resident page `p`.
    pub open spec fn frame_of(self, p: PageId) -> FrameState {
        self.frame(self.page_table[p] as int)
    }

    pub open spec fn pinned(self, p: PageId) -> bool {
        self.frame_of(p).pin_count > 0
    }

    pub open spec fn all_pinned(self) -> bool {
        forall|p: PageId| #[trigger] self.resident(p) ==> self.pinned(p)
    }

    /// A frame can be had: from the free list, or by evicting an unpinned page.
    pub open spec fn can_obtain_frame(self) -> bool {
        self.free_list.len() > 0 || !self.all_pinned()
    }

    /// The state after resident page `p` was pinned once more and accessed.
    pub open spec fn after_pin(self, p: PageId) -> PoolState {
        let f = self.page_table[p] as int;
        PoolState {
            frames: self.frames.update(
                f - 1,
                FrameState { pin_count: self.frame(f).pin_count + 1, ..self.frame(f) },
            ),
            replacer: self.replacer.after_access(f).with_evictable(f, false),
            ..self
        }
    }

    /// The state after resident page `p` was unpinned once; `dirtied` tells
    /// whether the holder changed its contents. The dirty flag is sticky, and
    /// the frame becomes evictable when its pin count reaches zero.
    pub open spec fn after_unpin(self, p: PageId, dirtied: bool) -> PoolState {
        let f = self.page_table[p] as int;
        let pins = (self.frame(f).pin_count - 1) as nat;
        PoolState {
            frames: self.frames.update(
                f - 1,
                FrameState { pin_count: pins, dirty: self.frame(f).dirty || dirtied, ..self.frame(f) },
            ),
            replacer: if pins == 0 {
                self.replacer.with_evictable(f, true)
            } else {
                self.replacer
            },
            ..self
        }
    }

    /// The state after a holder of resident page `p` replaced its contents.
    pub open spec fn after_update(self, p: PageId, data: Seq<u8>) -> PoolState {
        let f = self.page_table[p] as int;
        PoolState {
            frames: self.frames.update(f - 1, FrameState { page: data, ..self.frame(f) }),
            ..self
        }
    }

    /// The state after resident page `p` was written to disk.
    pub open spec fn after_flush(self, p: PageId) -> PoolState {
        let f = self.page_table[p] as int;
        PoolState {
            frames: self.frames.update(f - 1, FrameState { dirty: false, ..self.frame(f) }),
            ..self
        }
    }

    /// The state after resident page `p` was dropped: its frame is reset and
    /// goes to the back of the free list.
    pub open spec fn after_delete(self, p: PageId) -> PoolState {
        let f = self.page_table[p];
        PoolState {
            frames: self.frames.update(f - 1, free_frame(f)),
            free_list: self.free_list.push(f),
            page_table: self.page_table.remove(p),
            replacer: self.replacer.cleared(f as int),
        }
    }

    /// The frame that a page brought into the pool takes: the head of the free
    /// list, or the replacer's victim when the free list is empty.
    pub open spec fn takes_frame(self, f: int) -> bool {
        if self.free_list.len() > 0 {
            f == self.free_list[0]
        } else {
            self.replacer.is_victim(f)
        }
    }

    /// The page that must reach the disk before frame `f` is reused: the
    /// evicted page, when it is dirty.
    pub open spec fn write_back_for(self, f: int) -> Option<(PageId, Seq<u8>)> {
        if self.free_list.len() == 0 && self.frame(f).dirty {
            Some((self.frame(f).page_id, self.frame(f).page))
        } else {
            None
        }
    }

    /// The state after page `p` with contents `data` was placed in frame `f`,
    /// pinned once and accessed.
    pub open spec fn after_load(self, f: int, p: PageId, data: Seq<u8>) -> PoolState {
        let from_free = self.free_list.len() > 0;
        PoolState {
            frames: self.frames.update(f - 1, loaded_frame(f as FrameId, p, data)),
            free_list: if from_free {
                self.free_list.drop_first()
            } else {
                self.free_list
            },
            page_table: if from_free {
                self.page_table.insert(p, f as FrameId)
            } else {
                self.page_table.remove(self.frame(f).page_id).insert(p, f as FrameId)
            },
            replacer: (if from_free {
                self.replacer
            } else {
                self.replacer.cleared(f)
            }).after_access(f).with_evictable(f, false),
        }
    }

    pub open spec fn inv(self) -> bool {
        &&& self.frames.len() == self.replacer.num_frames
        &&& self.replacer.histories.len() == self.frames.len()
        &&& self.replacer.evictable.len() == self.frames.len()
        &&& self.frames.len() < isize::MAX
        &&& forall|i: int|
            0 <= i < self.frames.len() ==> {
                let fr = #[trigger] self.frames[i];
                &&& fr.id == i + 1
                &&& fr.page.len() == PAGE_SIZE
                &&& fr.page_id == INVALID_PAGE_ID ==> self.free_list.contains((i + 1) as FrameId)
                &&& fr.page_id != INVALID_PAGE_ID ==> self.page_table.contains_key(fr.page_id)
                    && self.page_table[fr.page_id] == i + 1
                &&& self.replacer.evictable[i] <==> fr.page_id != INVALID_PAGE_ID && fr.pin_count
                    == 0
            }
        &&& self.free_list.no_duplicates()
        &&& forall|i: int|
            0 <= i < self.free_list.len() ==> {
                let f = #[trigger] self.free_list[i];
                &&& 1 <= f <= self.frames.len()
                &&& self.frames[f - 1].page_id == INVALID_PAGE_ID
                &&& self.frames[f - 1].pin_count == 0
                &&& !self.frames[f - 1].dirty
            }
        &&& forall|p: PageId| #[trigger]
            self.page_table.contains_key(p) ==> {
                &&& p != INVALID_PAGE_ID
                &&& 1 <= self.page_table[p] <= self.frames.len()
                &&& self.frames[self.page_table[p] - 1].page_id == p
            }
    }
}

/// A page to write back, as the pool's contracts speak of it.
pub open spec fn write_back_view(w: Option<WriteBack>) -> Option<(PageId, Seq<u8>)> {
    match w {
        Some(wb) => Some((wb.page_id, wb.data@)),
        None => None,
    }
}

/// The dirty pages among the first `n` frames, in frame order.
pub open spec fn dirty_pages(frames: Seq<FrameState>, n: nat) -> Seq<(PageId, Seq<u8>)>
    decreases n,
{
    if n == 0 {
        Seq::empty()
    } else {
        let prev = dirty_pages(frames, (n - 1) as nat);
        let fr = frames[n - 1];
        if fr.dirty {
            prev.push((fr.page_id, fr.page))
        } else {
            prev
        }
    }
}

/// Frames as they are after every page was written back.
pub open spec fn all_clean(frames: Seq<FrameState>) -> Seq<FrameState> {
    Seq::new(frames.len(), |i: int| FrameState { dirty: false, ..frames[i] })
}

/// The free list of a new pool: every frame id from 1 to `n`, in order.
pub open spec fn all_frames(n: nat) -> Seq<FrameId> {
    Seq::new(n, |i: int| (i + 1) as FrameId)
}

/// The buffer pool's state; its view and invariant are `PoolState` and
/// `PoolState::inv`.
pub struct BufferPoolContext {
    frames: Vec<BufferPoolFrameInternal>,
    free_list: Vec<FrameId>,
    page_table: HashMap<PageId, FrameId>,
    replacer: LRUKReplacerInternal,
}

impl View for BufferPoolContext {
    type V = PoolState;

    closed spec fn view(&self) -> PoolState {
        PoolState {
            frames: self.frames@.map_values(|fr: BufferPoolFrameInternal| fr@),
            free_list: self.free_list@,
            page_table: self.page_table@,
            replacer: self.replacer@,
        }
    }
}

/// A well-formed pool meets the pool invariant, and its replacer keeps
/// `LRUK_REPLACER_K` accesses per frame.
pub broadcast proof fn lemma_pool_wf(p: &BufferPoolContext)
    requires
        p.wf(),
    ensures
        #![trigger p.wf()]
        p@.inv(),
        p@.replacer.k == LRUK_REPLACER_K,
{
}

/// The buffer pool's operations. Those that need the disk hand back what the
/// caller must read or write, and the caller performs the I/O.
pub trait BufApi: Sized + View<V = PoolState> {
    /// The structure's internal invariant.
    spec fn well_formed(&self) -> bool;

    /// A pool of `BUFFER_POOL_SIZE` free frames, all of them on the free list
    /// in id order, with no resident page.
    fn create() -> (r: Self)
        ensures
            r.well_formed(),
            r@.frames.len() == BUFFER_POOL_SIZE,
            r@.free_list == all_frames(BUFFER_POOL_SIZE as nat),
            r@.page_table.is_empty(),
            r@.replacer.num_frames == BUFFER_POOL_SIZE,
            r@.replacer.k == LRUK_REPLACER_K,
            r@.replacer.now == 0,
            forall|f: int| r@.valid_frame(f) ==> r@.frame(f) == free_frame(f as FrameId),
            forall|f: int| r@.valid_frame(f) ==> r@.replacer.history(f) == Seq::<int>::empty(),
            forall|f: int| r@.valid_frame(f) ==> !r@.replacer.is_evictable(f),
    ;

    /// The number of frames.
    fn size(&self) -> (r: usize)
        ensures
            r == self@.frames.len(),
    ;

    /// Places freshly allocated page `page_id` in a frame, as `load_page` does
    /// with a page of zeros.
    fn new_page(&mut self, page_id: PageId) -> (r: Option<Installed>)
        requires
            old(self).well_formed(),
            old(self)@.replacer.can_record(),
            page_id != INVALID_PAGE_ID,
            !old(self)@.resident(page_id),
        ensures
            final(self).well_formed(),
            r.is_none() <==> !old(self)@.can_obtain_frame(),
            r.is_none() ==> final(self)@ == old(self)@,
            r matches Some(ins) ==> {
                &&& old(self)@.takes_frame(ins.frame_id as int)
                &&& final(self)@ == old(self)@.after_load(ins.frame_id as int, page_id, zero_page())
                &&& write_back_view(ins.write_back) == old(self)@.write_back_for(ins.frame_id as int)
            },
            r matches Some(ins) ==> (old(self)@.free_list.len() > 0 ==> ins.frame_id
                == old(self)@.free_list[0] && ins.write_back.is_none()),
            r matches Some(ins) ==> (old(self)@.free_list.len() == 0 ==> old(self)@.frame(
                ins.frame_id as int,
            ).pin_count == 0),
    ;

    /// Hands out a resident page: pins it once more, records the access and
    /// returns its contents with no disk I/O. `None` with no change when the
    /// page is not resident; the caller then reads it from disk and calls
    /// `load_page`.
    fn fetch_page(&mut self, page_id: PageId) -> (r: Option<Page>)
        requires
            old(self).well_formed(),
            old(self)@.replacer.can_record(),
            old(self)@.resident(page_id) ==> old(self)@.frame_of(page_id).pin_count < usize::MAX,
        ensures
            final(self).well_formed(),
            r.is_some() <==> old(self)@.resident(page_id),
            r matches Some(pg) ==> pg@ == old(self)@.frame_of(page_id).page && final(self)@ == old(
                self,
            )@.after_pin(page_id),
            r.is_none() ==> final(self)@ == old(self)@,
    ;

    /// Releases one pin on page `page_id`; `is_dirty` tells whether the holder
    /// changed its contents. The dirty flag, once set, stays until a flush; at
    /// pin count zero the frame becomes evictable. `false` with no change when
    /// the page is not resident or not pinned.
    fn unpin_page(&mut self, page_id: PageId, is_dirty: bool) -> (r: bool)
        requires
            old(self).well_formed(),
        ensures
            final(self).well_formed(),
            r == (old(self)@.resident(page_id) && old(self)@.pinned(page_id)),
            r ==> final(self)@ == old(self)@.after_unpin(page_id, is_dirty),
            !r ==> final(self)@ == old(self)@,
    ;

    /// Records that resident page `page_id` reached the disk: clears its dirty
    /// flag. The caller writes the contents (`page_data`) first, so a failed
    /// write leaves the page dirty. `false` with no change when the page is
    /// not resident.
    fn flush_page(&mut self, page_id: PageId) -> (r: bool)
        requires
            old(self).well_formed(),
        ensures
            final(self).well_formed(),
            r == old(self)@.resident(page_id),
            r ==> final(self)@ == old(self)@.after_flush(page_id),
            !r ==> final(self)@ == old(self)@,
    ;

    /// Records that every dirty page reached the disk: clears all dirty flags.
    /// The caller writes the pages (`dirty_pages`) first; one whose write
    /// failed is left to `flush_page` for the others.
    fn flush_all(&mut self)
        requires
            old(self).well_formed(),
        ensures
            final(self).well_formed(),
            final(self)@ == (PoolState { frames: all_clean(old(self)@.frames), ..old(self)@ }),
    ;

    /// Drops resident, unpinned page `page_id` from the pool: its frame is
    /// reset and returned to the free list. The disk copy and the page id are
    /// not reclaimed. `false` with no change when the page is not resident or
    /// still pinned.
    fn delete_page(&mut self, page_id: PageId) -> (r: bool)
        requires
            old(self).well_formed(),
        ensures
            final(self).well_formed(),
            r == (old(self)@.resident(page_id) && !old(self)@.pinned(page_id)),
            r ==> final(self)@ == old(self)@.after_delete(page_id),
            !r ==> final(self)@ == old(self)@,
    ;
}

impl BufApi for BufferPoolContext {
    open spec fn well_formed(&self) -> bool {
        &&& self.wf()
        &&& self@.inv()
        &&& self@.replacer.k == LRUK_REPLACER_K
    }

    fn create() -> (r: Self) {
        let mut frames: Vec<BufferPoolFrameInternal> = Vec::new();
        let mut free_list: Vec<FrameId> = Vec::new();
        let mut i: usize = 0;
        while i < BUFFER_POOL_SIZE
            invariant
                i <= BUFFER_POOL_SIZE,
                frames@.len() == i,
                free_list@ == all_frames(i as nat),
                forall|j: int| 0 <= j < i ==> #[trigger] frames@[j]@ == free_frame((j + 1) as FrameId),
            decreases BUFFER_POOL_SIZE - i,
        {
            let id = (i + 1) as FrameId;
            frames.push(BufferPoolFrameInternal::free(id));
            free_list.push(id);
            assert(free_list@ =~= all_frames((i + 1) as nat));
            i = i + 1;
        }
        let page_table: HashMap<PageId, FrameId> = HashMap::new();
        let replacer = LRUKReplacerInternal::new(BUFFER_POOL_SIZE, LRUK_REPLACER_K);
        let r = BufferPoolContext { frames, free_list, page_table, replacer };
        proof {
            assert(r@.page_table =~= Map::empty());
            assert forall|i: int| 0 <= i < BUFFER_POOL_SIZE implies #[trigger] r@.frames[i]
                == free_frame((i + 1) as FrameId) && r@.free_list.contains((i + 1) as FrameId)
                && !r@.replacer.evictable[i] by {
                assert(r@.free_list[i] == i + 1);
                assert(!r@.replacer.is_evictable(i + 1));
            }
        }
        r
    }

    fn size(&self) -> (r: usize) {
        self.frames.len()
    }

    fn new_page(&mut self, page_id: PageId) -> (r: Option<Installed>) {
        self.load_page(page_id, empty())
    }

    fn fetch_page(&mut self, page_id: PageId) -> (r: Option<Page>) {
        let f = match self.page_table.get(&page_id) {
            Some(f) => *f,
            None => return None,
        };
        let ghost s0 = self@;
        assert(s0.resident(page_id));
        let idx = (f - 1) as usize;
        assert(s0.frame(f as int) == self.frames@[idx as int]@);
        self.frames[idx].pin_count = self.frames[idx].pin_count + 1;
        self.replacer.record_access(f);
        self.replacer.set_evictable(f, false);
        proof {
            let s1 = s0.after_pin(page_id);
            assert(self@.frames =~= s1.frames);
            assert(self@ == s1);
        }
        Some(self.frames[idx].page)
    }

    fn unpin_page(&mut self, page_id: PageId, is_dirty: bool) -> (r: bool) {
        let f = match self.page_table.get(&page_id) {
            Some(f) => *f,
            None => return false,
        };
        let ghost s0 = self@;
        assert(s0.resident(page_id));
        let idx = (f - 1) as usize;
        assert(s0.frame(f as int) == self.frames@[idx as int]@);
        if self.frames[idx].pin_count == 0 {
            return false;
        }
        let pins = self.frames[idx].pin_count - 1;
        self.frames[idx].pin_count = pins;
        self.frames[idx].dirty = self.frames[idx].dirty || is_dirty;
        if pins == 0 {
            self.replacer.set_evictable(f, true);
        }
        proof {
            let s1 = s0.after_unpin(page_id, is_dirty);
            assert(self@.frames =~= s1.frames);
            assert(self@ == s1);
        }
        true
    }

    fn flush_page(&mut self, page_id: PageId) -> (r: bool) {
        let f = match self.page_table.get(&page_id) {
            Some(f) => *f,
            None => return false,
        };
        let ghost s0 = self@;
        assert(s0.resident(page_id));
        let idx = (f - 1) as usize;
        assert(s0.frame(f as int) == self.frames@[idx as int]@);
        self.frames[idx].dirty = false;
        proof {
            let s1 = s0.after_flush(page_id);
            assert(self@.frames =~= s1.frames);
            assert(self@ == s1);
        }
        true
    }

    fn flush_all(&mut self) {
        let ghost s0 = self@;
        let mut i: usize = 0;
        while i < self.frames.len()
            invariant
                self.wf(),
                i <= self.frames@.len() == s0.frames.len(),
                self@.free_list == s0.free_list,
                self@.page_table == s0.page_table,
                self@.replacer == s0.replacer,
                self@.frames.len() == s0.frames.len(),
                forall|j: int|
                    0 <= j < i ==> #[trigger] self@.frames[j] == (FrameState {
                        dirty: false,
                        ..s0.frames[j]
                    }),
                forall|j: int| i <= j < s0.frames.len() ==> #[trigger] self@.frames[j] == s0.frames[j],
            decreases s0.frames.len() - i,
        {
            let ghost before = self@;
            self.frames[i].dirty = false;
            assert(self@.frames =~= before.frames.update(
                i as int,
                FrameState { dirty: false, ..before.frames[i as int] },
            ));
            i = i + 1;
        }
        assert(self@.frames =~= all_clean(s0.frames));
    }

    fn delete_page(&mut self, page_id: PageId) -> (r: bool) {
        let f = match self.page_table.get(&page_id) {
            Some(f) => *f,
            None => return false,
        };
        let ghost s0 = self@;
        assert(s0.resident(page_id));
        let idx = (f - 1) as usize;
        assert(s0.frame(f as int) == self.frames@[idx as int]@);
        if self.frames[idx].pin_count > 0 {
            return false;
        }
        self.page_table.remove(&page_id);
        self.frames.set(idx, BufferPoolFrameInternal::free(f));
        self.replacer.remove(f);
        self.free_list.push(f);
        proof {
            let s1 = s0.after_delete(page_id);
            assert(self@.frames =~= s1.frames);
            assert(self@.page_table =~= s1.page_table);
            assert(self@ == s1);
            assert forall|g: FrameId| s0.free_list.contains(g) && g != idx + 1 implies s1.free_list.contains(g) by {
                let j = choose|j: int| 0 <= j < s0.free_list.len() && s0.free_list[j] == g;
                assert(s1.free_list[j] == g);
            }
            assert(s1.free_list[s1.free_list.len() - 1] == f);
            lemma_free_frames_listed(s0, s1, idx as int);
            assert forall|i: int, j: int|
                0 <= i < s1.free_list.len() && 0 <= j < s1.free_list.len() && i != j implies s1.free_list[i]
                != s1.free_list[j] by {
                if i < s0.free_list.len() && j == s0.free_list.len() {
                    let g = s0.free_list[i];
                    assert(s0.frames[g - 1].page_id == INVALID_PAGE_ID);
                }
                if j < s0.free_list.len() && i == s0.free_list.len() {
                    let g = s0.free_list[j];
                    assert(s0.frames[g - 1].page_id == INVALID_PAGE_ID);
                }
            }
        }
        true
    }
}

impl BufferPoolContext {
    /// The pool's internal invariant.
    pub closed spec fn wf(&self) -> bool {
        &&& self@.inv()
        &&& self.replacer.wf()
        &&& self@.replacer.k == LRUK_REPLACER_K
    }

    /// Whether page `page_id` is in the pool.
    pub fn is_resident(&self, page_id: PageId) -> (r: bool)
        requires
            self.well_formed(),
        ensures
            r == self@.resident(page_id),
    {
        self.page_table.contains_key(&page_id)
    }

    /// Whether a frame can be had for a page brought into the pool.
    pub fn can_obtain_frame(&self) -> (r: bool)
        requires
            self.well_formed(),
        ensures
            r == self@.can_obtain_frame(),
    {
        proof {
            self.lemma_evictable_iff_unpinned();
        }
        self.free_list.len() > 0 || self.replacer.has_evictable()
    }

    /// With the free list empty, some frame is evictable exactly when some
    /// resident page is unpinned.
    proof fn lemma_evictable_iff_unpinned(&self)
        requires
            self.wf(),
        ensures
            self@.free_list.len() == 0 ==> (self@.replacer.has_evictable() <==> !self@.all_pinned()),
    {
        let s = self@;
        if s.free_list.len() == 0 {
            if s.replacer.has_evictable() {
                let f = choose|f: int| #[trigger] s.replacer.evictable_frame(f);
                let fr = s.frames[f - 1];
                assert(s.resident(fr.page_id));
                assert(!s.pinned(fr.page_id));
            }
            if !s.all_pinned() {
                let p = choose|p: PageId| #[trigger] s.resident(p) && !s.pinned(p);
                let f = s.page_table[p] as int;
                assert(s.replacer.evictable_frame(f));
            }
        }
    }

    /// Places page `page_id`, read from disk as `data`, in a frame: the head of
    /// the free list when there is one, else the replacer's victim, whose page
    /// leaves the page table. The frame is pinned once and its access recorded.
    /// When the victim was dirty its page comes back in `write_back`; a caller
    /// that wrote it first (`choose_frame`, then `flush_page`) gets `None`
    /// there, and nothing is lost if that write fails. `None` with no change
    /// when every frame holds a pinned page.
    pub fn load_page(&mut self, page_id: PageId, data: Page) -> (r: Option<Installed>)
        requires
            old(self).well_formed(),
            old(self)@.replacer.can_record(),
            page_id != INVALID_PAGE_ID,
            !old(self)@.resident(page_id),
        ensures
            final(self).well_formed(),
            r.is_none() <==> !old(self)@.can_obtain_frame(),
            r.is_none() ==> final(self)@ == old(self)@,
            r matches Some(ins) ==> {
                &&& old(self)@.takes_frame(ins.frame_id as int)
                &&& final(self)@ == old(self)@.after_load(ins.frame_id as int, page_id, data@)
                &&& write_back_view(ins.write_back) == old(self)@.write_back_for(ins.frame_id as int)
            },
            r matches Some(ins) ==> (old(self)@.free_list.len() > 0 ==> ins.frame_id
                == old(self)@.free_list[0] && ins.write_back.is_none()),
            r matches Some(ins) ==> (old(self)@.free_list.len() == 0 ==> old(self)@.frame(
                ins.frame_id as int,
            ).pin_count == 0),
    {
        let ghost s0 = self@;
        proof {
            self.lemma_evictable_iff_unpinned();
        }
        let f: FrameId;
        let mut write_back: Option<WriteBack> = None;
        if self.free_list.len() > 0 {
            f = self.free_list.remove(0);
            assert(s0.free_list[0] == f);
        } else {
            match self.replacer.evict() {
                None => return None,
                Some(v) => {
                    f = v;
                    let idx = (f - 1) as usize;
                    assert(s0.frames[idx as int] == self.frames@[idx as int]@);
                    let old_page_id = self.frames[idx].page_id;
                    if self.frames[idx].dirty {
                        write_back = Some(WriteBack { page_id: old_page_id, data: self.frames[idx].page });
                    }
                    self.page_table.remove(&old_page_id);
                },
            }
        }
        let idx = (f - 1) as usize;
        self.frames.set(
            idx,
            BufferPoolFrameInternal { page: data, id: f, page_id, pin_count: 1, dirty: false },
        );
        self.page_table.insert(page_id, f);
        self.replacer.record_access(f);
        self.replacer.set_evictable(f, false);
        proof {
            let s1 = s0.after_load(f as int, page_id, data@);
            assert(self@.frames =~= s1.frames);
            assert(self@.page_table =~= s1.page_table);
            assert(self@.free_list =~= s1.free_list);
            assert(self@ == s1);
            assert(s0.frames[idx as int].pin_count == 0);
            assert forall|g: FrameId| s0.free_list.contains(g) && g != idx + 1 implies s1.free_list.contains(g) by {
                let j = choose|j: int| 0 <= j < s0.free_list.len() && s0.free_list[j] == g;
                if s0.free_list.len() > 0 {
                    assert(j != 0);
                    assert(s1.free_list[j - 1] == g);
                } else {
                    assert(s1.free_list[j] == g);
                }
            }
            lemma_free_frames_listed(s0, s1, idx as int);
            assert forall|p: PageId| #[trigger] s1.page_table.contains_key(p) implies {
                &&& p != INVALID_PAGE_ID
                &&& 1 <= s1.page_table[p] <= s1.frames.len()
                &&& s1.frames[s1.page_table[p] - 1].page_id == p
            } by {
                if p != page_id {
                    assert(s0.page_table.contains_key(p));
                    assert(s0.page_table[p] != f);
                }
            }
        }
        Some(Installed { frame_id: f, write_back })
    }

    /// Replaces the contents of page `page_id`, which the caller holds pinned.
    /// The dirty flag is left to `unpin_page`. `false` with no change when the
    /// page is not resident or not pinned.
    pub fn update_page(&mut self, page_id: PageId, data: Page) -> (r: bool)
        requires
            old(self).well_formed(),
        ensures
            final(self).well_formed(),
            r == (old(self)@.resident(page_id) && old(self)@.pinned(page_id)),
            r ==> final(self)@ == old(self)@.after_update(page_id, data@),
            !r ==> final(self)@ == old(self)@,
    {
        let f = match self.page_table.get(&page_id) {
            Some(f) => *f,
            None => return false,
        };
        let ghost s0 = self@;
        assert(s0.resident(page_id));
        let idx = (f - 1) as usize;
        assert(s0.frame(f as int) == self.frames@[idx as int]@);
        if self.frames[idx].pin_count == 0 {
            return false;
        }
        self.frames[idx].page = data;
        proof {
            let s1 = s0.after_update(page_id, data@);
            assert(self@.frames =~= s1.frames);
            assert(self@ == s1);
        }
        true
    }

    /// The contents of resident page `page_id`, with no change; `None` when it
    /// is not resident.
    pub fn page_data(&self, page_id: PageId) -> (r: Option<Page>)
        requires
            self.well_formed(),
        ensures
            r.is_some() <==> self@.resident(page_id),
            r matches Some(pg) ==> pg@ == self@.frame_of(page_id).page,
    {
        let f = match self.page_table.get(&page_id) {
            Some(f) => *f,
            None => return None,
        };
        assert(self@.resident(page_id));
        let idx = (f - 1) as usize;
        assert(self@.frame(f as int) == self.frames@[idx as int]@);
        Some(self.frames[idx].page)
    }

    /// Every dirty resident page with its contents, in frame order, with no
    /// change: what `flush_all` expects to have reached the disk.
    pub fn dirty_pages(&self) -> (r: Vec<WriteBack>)
        requires
            self.well_formed(),
        ensures
            r@.map_values(|w: WriteBack| (w.page_id, w.data@)) == dirty_pages(
                self@.frames,
                self@.frames.len(),
            ),
    {
        let mut out: Vec<WriteBack> = Vec::new();
        let mut i: usize = 0;
        while i < self.frames.len()
            invariant
                i <= self.frames@.len(),
                out@.map_values(|w: WriteBack| (w.page_id, w.data@)) == dirty_pages(
                    self@.frames,
                    i as nat,
                ),
            decreases self.frames@.len() - i,
        {
            assert(self.frames@[i as int]@ == self@.frames[i as int]);
            if self.frames[i].dirty {
                out.push(WriteBack { page_id: self.frames[i].page_id, data: self.frames[i].page });
            }
            assert(out@.map_values(|w: WriteBack| (w.page_id, w.data@)) =~= dirty_pages(
                self@.frames,
                (i + 1) as nat,
            ));
            i = i + 1;
        }
        out
    }

    /// What `load_page` and `new_page` would do, with no change: the frame the
    /// page would take and the dirty page that must first reach the disk.
    /// `None` when every frame holds a pinned page. A caller writes that page
    /// and records it with `flush_page` before it loads, so the frame is clean
    /// when it is reused.
    pub fn choose_frame(&self) -> (r: Option<Installed>)
        requires
            self.well_formed(),
        ensures
            r.is_none() <==> !self@.can_obtain_frame(),
            r matches Some(ins) ==> {
                &&& self@.takes_frame(ins.frame_id as int)
                &&& write_back_view(ins.write_back) == self@.write_back_for(ins.frame_id as int)
            },
    {
        proof {
            self.lemma_evictable_iff_unpinned();
        }
        if self.free_list.len() > 0 {
            return Some(Installed { frame_id: self.free_list[0], write_back: None });
        }
        match self.replacer.victim() {
            None => None,
            Some(f) => {
                let idx = (f - 1) as usize;
                assert(self@.frames[idx as int] == self.frames@[idx as int]@);
                let write_back = if self.frames[idx].dirty {
                    Some(WriteBack { page_id: self.frames[idx].page_id, data: self.frames[idx].page })
                } else {
                    None
                };
                Some(Installed { frame_id: f, write_back })
            },
        }
    }

    /// The frames on the free list, in the order they will be handed out.
    pub fn free_frames(&self) -> (r: Vec<FrameId>)
        ensures
            r@ == self@.free_list,
    {
        let mut r: Vec<FrameId> = Vec::new();
        let mut i: usize = 0;
        while i < self.free_list.len()
            invariant
                i <= self.free_list@.len(),
                r@ == self.free_list@.subrange(0, i as int),
            decreases self.free_list@.len() - i,
        {
            r.push(self.free_list[i]);
            i = i + 1;
            assert(r@ =~= self.free_list@.subrange(0, i as int));
        }
        assert(r@ =~= self.free_list@);
        r
    }

    /// The frame with id `frame_id`.
    pub fn frame(&self, frame_id: FrameId) -> (r: &BufferPoolFrameInternal)
        requires
            self@.valid_frame(frame_id as int),
        ensures
            r@ == self@.frame(frame_id as int),
    {
        &self.frames[(frame_id - 1) as usize]
    }

    /// The frame that holds page `page_id`, if it is resident.
    pub fn frame_id_of(&self, page_id: PageId) -> (r: Option<FrameId>)
        requires
            self.well_formed(),
        ensures
            r.is_some() <==> self@.resident(page_id),
            r matches Some(f) ==> f == self@.page_table[page_id],
    {
        match self.page_table.get(&page_id) {
            Some(f) => Some(*f),
            None => None,
        }
    }

    /// The replacer that ranks this pool's frames.
    pub fn replacer(&self) -> (r: &LRUKReplacerInternal)
        ensures
            r@ == self@.replacer,
    {
        &self.replacer
    }
}


/// When only the frame at index `idx` changed, every frame that holds no page
/// is still on the free list, provided the list kept the other frames it held
/// and lists that frame whenever it holds no page.
proof fn lemma_free_frames_listed(s0: PoolState, s1: PoolState, idx: int)
    requires
        s0.inv(),
        s1.frames.len() == s0.frames.len(),
        0 <= idx < s0.frames.len(),
        forall|i: int| 0 <= i < s1.frames.len() && i != idx ==> s1.frames[i] == s0.frames[i],
        forall|g: FrameId| s0.free_list.contains(g) && g != idx + 1 ==> s1.free_list.contains(g),
        s1.frames[idx].page_id == INVALID_PAGE_ID ==> s1.free_list.contains((idx + 1) as FrameId),
    ensures
        forall|i: int|
            0 <= i < s1.frames.len() && #[trigger] s1.frames[i].page_id == INVALID_PAGE_ID
                ==> s1.free_list.contains((i + 1) as FrameId),
{
    assert forall|i: int|
        0 <= i < s1.frames.len() && #[trigger] s1.frames[i].page_id
            == INVALID_PAGE_ID implies s1.free_list.contains((i + 1) as FrameId) by {
        if i != idx {
            assert(s0.frames[i] == s1.frames[i]);
        }
    }
}

/// A page brought into the pool has exactly one frame to go to: the choice of
/// `choose_frame` is the frame that `load_page` then takes.
pub proof fn lemma_takes_frame_unique(s: PoolState, a: int, b: int)
    requires
        s.takes_frame(a),
        s.takes_frame(b),
    ensures
        a == b,
{
    if s.free_list.len() == 0 {
        lemma_victim_unique(s.replacer, a, b);
    }
}

/// With the free list empty, an unpinned page accessed fewer than `k` times
/// since it was loaded goes before any page accessed `k` times or more,
/// however recent that single access: the latter's frame is not taken.
pub proof fn lemma_single_access_page_evicted_first(s: PoolState, a: PageId, b: PageId)
    requires
        s.inv(),
        s.free_list.len() == 0,
        s.resident(a),
        !s.pinned(a),
        s.replacer.infinite_distance(s.page_table[a] as int),
        !s.replacer.infinite_distance(s.page_table[b] as int),
    ensures
        !s.takes_frame(s.page_table[b] as int),
{
    let fa = s.page_table[a] as int;
    assert(s.frames[fa - 1].page_id == a);
    assert(s.replacer.evictable_frame(fa));
    lemma_infinite_distance_evicted_first(s.replacer, fa, s.page_table[b] as int);
}

/// Eviction never picks a pinned frame, and when every resident page is pinned
/// no frame can be evicted.
pub proof fn lemma_pinned_never_evicted(s: PoolState, f: int)
    requires
        s.inv(),
        s.valid_frame(f),
    ensures
        s.frame(f).pin_count > 0 ==> !s.replacer.is_victim(f),
        s.all_pinned() ==> !s.replacer.has_evictable(),
{
    if s.all_pinned() && s.replacer.has_evictable() {
        let g = choose|g: int| #[trigger] s.replacer.evictable_frame(g);
        assert(s.resident(s.frames[g - 1].page_id));
    }
}

} // verus!
