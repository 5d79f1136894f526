use symmetric_concurrent::diskmgr::DiskMgrCtx;
use symmetric_concurrent::shared::{INVALID_PAGE_ID, PAGE_SIZE};

#[test]
fn test_append() {
    let mut mgr = DiskMgrCtx::create();
    let first = mgr.append_page();
    let second = mgr.append_page();
    let third = mgr.append_page();
    assert!(first == 0);
    assert!(second == 1);
    assert!(third == 2);
}

#[test]
fn create_starts_with_nothing_written() {
    let mgr = DiskMgrCtx::create();
    assert_eq!(mgr.num_writes(), 0);
    assert_eq!(mgr.num_flushes(), 0);
    assert_eq!(mgr.last_write(), INVALID_PAGE_ID);
    assert_eq!(mgr.num_pages(), 0);
}

#[test]
fn write_counts_and_remembers_the_page() {
    let mut mgr = DiskMgrCtx::create();
    mgr.write_page(3);
    mgr.write_page(1);
    assert_eq!(mgr.num_writes(), 2);
    assert_eq!(mgr.num_flushes(), 2);
    assert_eq!(mgr.last_write(), 1);
    assert_eq!(mgr.num_pages(), 4);
}

#[test]
fn append_follows_the_end_of_the_file() {
    let mut mgr = DiskMgrCtx::create();
    mgr.write_page(4);
    assert_eq!(mgr.append_page(), 5);
    assert_eq!(mgr.last_write(), 5);
    assert_eq!(mgr.num_writes(), 2);
    assert_eq!(mgr.num_pages(), 6);
}

#[test]
fn page_offsets_are_multiples_of_the_page_size() {
    assert_eq!(DiskMgrCtx::page_offset(0), Some(0));
    assert_eq!(DiskMgrCtx::page_offset(3), Some(3 * PAGE_SIZE as u64));
    assert_eq!(DiskMgrCtx::page_offset(-1), None);
    assert_eq!(DiskMgrCtx::page_offset(isize::MAX), None);
}

#[test]
fn only_pages_within_the_file_can_be_read() {
    let mut mgr = DiskMgrCtx::create();
    assert!(!mgr.contains_page(0));
    mgr.append_page();
    assert!(mgr.contains_page(0));
    assert!(!mgr.contains_page(1));
    assert!(!mgr.contains_page(-1));
}
