use symmetric_concurrent::bufmgr::{BufApi, BufferPoolContext, FrameApi};
use symmetric_concurrent::page::{empty, Page};
use symmetric_concurrent::shared::{FrameId, PageId, BUFFER_POOL_SIZE, PAGE_SIZE};

fn page_of(byte: u8) -> Page {
    [byte; PAGE_SIZE]
}

/// A pool whose every frame holds one of pages `0..BUFFER_POOL_SIZE`, unpinned.
fn full_pool() -> BufferPoolContext {
    let mut pool = BufferPoolContext::create();
    for p in 0..BUFFER_POOL_SIZE as PageId {
        assert!(pool.new_page(p).is_some());
        assert!(pool.unpin_page(p, false));
    }
    pool
}

#[test]
fn create_lists_every_frame_as_free() {
    let pool = BufferPoolContext::create();
    let free = pool.free_frames();
    assert_eq!(free.len(), BUFFER_POOL_SIZE);
    assert_eq!(free[0], 1);
    assert_eq!(free[free.len() - 1], 50);
    assert_eq!(pool.size(), BUFFER_POOL_SIZE);
    assert!(pool.can_obtain_frame());
}

#[test]
fn new_page_takes_the_head_of_the_free_list() {
    let mut pool = BufferPoolContext::create();
    let ins = pool.new_page(7).unwrap();
    assert_eq!(ins.frame_id, 1);
    assert!(ins.write_back.is_none());
    assert_eq!(pool.frame_id_of(7), Some(1));
    assert_eq!(pool.free_frames().len(), BUFFER_POOL_SIZE - 1);
    assert_eq!(pool.free_frames()[0], 2);
    let frame = pool.frame(1);
    assert_eq!(frame.page_id(), 7);
    assert_eq!(frame.pin_count(), 1);
    assert!(!frame.is_dirty());
    assert_eq!(frame.data(), empty());
}

#[test]
fn free_list_is_used_before_eviction() {
    let mut pool = BufferPoolContext::create();
    for p in 0..(BUFFER_POOL_SIZE as PageId - 1) {
        pool.new_page(p).unwrap();
        pool.unpin_page(p, true);
    }
    // one free frame is left: it is used, and no dirty page is written back
    let ins = pool.load_page(100, page_of(1)).unwrap();
    assert_eq!(ins.frame_id, BUFFER_POOL_SIZE as FrameId);
    assert!(ins.write_back.is_none());
    for p in 0..(BUFFER_POOL_SIZE as PageId - 1) {
        assert!(pool.is_resident(p));
    }
}

#[test]
fn fetch_of_a_resident_page_pins_it_again() {
    let mut pool = BufferPoolContext::create();
    pool.load_page(3, page_of(5)).unwrap();
    let page = pool.fetch_page(3).unwrap();
    assert_eq!(page, page_of(5));
    let f = pool.frame_id_of(3).unwrap();
    assert_eq!(pool.frame(f).pin_count(), 2);
}

#[test]
fn fetch_of_an_absent_page_is_none() {
    let mut pool = BufferPoolContext::create();
    assert!(pool.fetch_page(3).is_none());
    assert_eq!(pool.free_frames().len(), BUFFER_POOL_SIZE);
}

#[test]
fn unpin_reports_misuse() {
    let mut pool = BufferPoolContext::create();
    assert!(!pool.unpin_page(4, false));
    pool.new_page(4).unwrap();
    assert!(pool.unpin_page(4, false));
    assert!(!pool.unpin_page(4, false));
    assert_eq!(pool.frame(1).pin_count(), 0);
}

#[test]
fn dirty_flag_is_sticky_until_flush() {
    let mut pool = BufferPoolContext::create();
    pool.new_page(4).unwrap();
    pool.fetch_page(4).unwrap();
    assert!(pool.unpin_page(4, true));
    assert!(pool.unpin_page(4, false));
    assert!(pool.frame(1).is_dirty());
    assert_eq!(pool.page_data(4), Some(empty()));
    assert!(pool.frame(1).is_dirty());
    assert!(pool.flush_page(4));
    assert!(!pool.frame(1).is_dirty());
    assert_eq!(pool.frame(1).pin_count(), 0);
    assert!(!pool.flush_page(5));
    assert!(pool.page_data(5).is_none());
}

#[test]
fn choose_frame_changes_nothing() {
    let mut pool = full_pool();
    pool.fetch_page(0).unwrap();
    assert!(pool.update_page(0, page_of(42)));
    assert!(pool.unpin_page(0, true));
    for p in 1..BUFFER_POOL_SIZE as PageId {
        pool.fetch_page(p).unwrap();
    }
    // only page 0 is unpinned: it is the planned victim, with its dirty contents
    let plan = pool.choose_frame().unwrap();
    assert_eq!(plan.frame_id, 1);
    let wb = plan.write_back.unwrap();
    assert_eq!(wb.page_id, 0);
    assert_eq!(wb.data, page_of(42));
    assert!(pool.is_resident(0));
    assert!(pool.frame(1).is_dirty());
    // once the write is recorded, the load reuses a clean frame
    assert!(pool.flush_page(0));
    let ins = pool.load_page(77, page_of(7)).unwrap();
    assert_eq!(ins.frame_id, 1);
    assert!(ins.write_back.is_none());
    assert!(!pool.is_resident(0));
}

#[test]
fn choose_frame_prefers_the_free_list() {
    let mut pool = BufferPoolContext::create();
    pool.new_page(1).unwrap();
    pool.unpin_page(1, true);
    let plan = pool.choose_frame().unwrap();
    assert_eq!(plan.frame_id, 2);
    assert!(plan.write_back.is_none());
}

#[test]
fn eviction_picks_the_least_recently_used_unpinned_page() {
    let mut pool = full_pool();
    assert!(pool.free_frames().is_empty());
    let ins = pool.new_page(1000).unwrap();
    assert_eq!(ins.frame_id, 1);
    assert!(ins.write_back.is_none());
    assert!(!pool.is_resident(0));
    assert_eq!(pool.frame_id_of(1000), Some(1));
}

#[test]
fn dirty_victim_is_written_back_once() {
    let mut pool = full_pool();
    pool.fetch_page(0).unwrap();
    assert!(pool.update_page(0, page_of(42)));
    assert!(pool.unpin_page(0, true));
    // page 0 now has two accesses, so page 1 (one access) goes first
    let first = pool.load_page(2000, page_of(2)).unwrap();
    assert_eq!(first.frame_id, 2);
    assert!(first.write_back.is_none());
    for p in 2..BUFFER_POOL_SIZE as PageId {
        let ins = pool.load_page(2000 + p, page_of(3)).unwrap();
        assert!(ins.write_back.is_none());
    }
    // the new pages stay pinned: page 0 is the only unpinned page left
    let ins = pool.load_page(5000, page_of(4)).unwrap();
    assert_eq!(ins.frame_id, 1);
    let wb = ins.write_back.unwrap();
    assert_eq!(wb.page_id, 0);
    assert_eq!(wb.data, page_of(42));
    assert!(!pool.is_resident(0));
}

#[test]
fn fully_pinned_pool_has_no_frame() {
    let mut pool = BufferPoolContext::create();
    for p in 0..BUFFER_POOL_SIZE as PageId {
        pool.new_page(p).unwrap();
    }
    assert!(!pool.can_obtain_frame());
    assert!(pool.new_page(999).is_none());
    assert!(pool.load_page(999, page_of(1)).is_none());
    assert!(!pool.is_resident(999));
    pool.unpin_page(17, false);
    assert!(pool.can_obtain_frame());
    let ins = pool.new_page(999).unwrap();
    assert_eq!(ins.frame_id, 18);
}

#[test]
fn delete_of_a_pinned_page_changes_nothing() {
    let mut pool = BufferPoolContext::create();
    pool.load_page(8, page_of(8)).unwrap();
    assert!(!pool.delete_page(8));
    assert!(pool.is_resident(8));
    assert_eq!(pool.frame(1).data(), page_of(8));
    assert_eq!(pool.frame(1).pin_count(), 1);
    assert_eq!(pool.free_frames().len(), BUFFER_POOL_SIZE - 1);
}

#[test]
fn delete_returns_the_frame_to_the_free_list() {
    let mut pool = BufferPoolContext::create();
    pool.load_page(8, page_of(8)).unwrap();
    pool.unpin_page(8, true);
    assert!(pool.delete_page(8));
    assert!(!pool.is_resident(8));
    let free = pool.free_frames();
    assert_eq!(free.len(), BUFFER_POOL_SIZE);
    assert_eq!(free[free.len() - 1], 1);
    assert_eq!(pool.frame(1).data(), empty());
    assert!(!pool.frame(1).is_dirty());
    assert!(!pool.delete_page(8));
}

#[test]
fn flush_all_hands_out_every_dirty_page() {
    let mut pool = BufferPoolContext::create();
    pool.load_page(10, page_of(10)).unwrap();
    pool.load_page(11, page_of(11)).unwrap();
    pool.load_page(12, page_of(12)).unwrap();
    pool.unpin_page(10, true);
    pool.unpin_page(12, true);
    let out = pool.dirty_pages();
    assert_eq!(out.len(), 2);
    assert_eq!(out[0].page_id, 10);
    assert_eq!(out[0].data, page_of(10));
    assert_eq!(out[1].page_id, 12);
    assert_eq!(out[1].data, page_of(12));
    assert_eq!(pool.dirty_pages().len(), 2);
    pool.flush_all();
    assert!(pool.dirty_pages().is_empty());
    assert!(!pool.frame(1).is_dirty());
    assert!(!pool.frame(3).is_dirty());
}

#[test]
fn frame_data_is_a_copy() {
    let mut pool = BufferPoolContext::create();
    pool.load_page(8, page_of(8)).unwrap();
    let mut frame_copy = pool.frame(1).data();
    assert_eq!(frame_copy[0], 8);
    frame_copy[0] = 0;
    assert_eq!(pool.frame(1).data()[0], 8);
}
