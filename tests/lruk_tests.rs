use symmetric_concurrent::lruk::{LRUKReplacerInternal, Replacer};

#[test]
fn evict_with_nothing_evictable_is_none() {
    let mut r = LRUKReplacerInternal::new(3, 2);
    r.record_access(1);
    r.record_access(2);
    assert_eq!(r.evict(), None);
    assert!(!r.has_evictable());
}

#[test]
fn single_access_goes_before_repeated_access() {
    let mut r = LRUKReplacerInternal::new(3, 2);
    // frame 1 is accessed twice early, frame 2 once, late
    r.record_access(1);
    r.record_access(1);
    r.record_access(2);
    r.set_evictable(1, true);
    r.set_evictable(2, true);
    assert_eq!(r.evict(), Some(2));
    assert_eq!(r.evict(), Some(1));
    assert_eq!(r.evict(), None);
}

#[test]
fn oldest_single_access_goes_first() {
    let mut r = LRUKReplacerInternal::new(4, 2);
    r.record_access(3);
    r.record_access(2);
    r.record_access(4);
    for f in 2..=4 {
        r.set_evictable(f, true);
    }
    assert_eq!(r.evict(), Some(3));
    assert_eq!(r.evict(), Some(2));
    assert_eq!(r.evict(), Some(4));
}

#[test]
fn largest_k_distance_goes_first() {
    let mut r = LRUKReplacerInternal::new(3, 2);
    // timestamps: f1 at 0 and 3, f2 at 1 and 2, f3 at 4 and 5
    r.record_access(1);
    r.record_access(2);
    r.record_access(2);
    r.record_access(1);
    r.record_access(3);
    r.record_access(3);
    for f in 1..=3 {
        r.set_evictable(f, true);
    }
    // second most recent access: f1 at 0, f2 at 1, f3 at 4
    assert_eq!(r.evict(), Some(1));
    assert_eq!(r.evict(), Some(2));
    assert_eq!(r.evict(), Some(3));
}

#[test]
fn only_the_last_k_accesses_count() {
    let mut r = LRUKReplacerInternal::new(2, 2);
    // f1 at 0, 1, 4; f2 at 2, 3: f1's second most recent access is 1, f2's is 2
    r.record_access(1);
    r.record_access(1);
    r.record_access(2);
    r.record_access(2);
    r.record_access(1);
    r.set_evictable(1, true);
    r.set_evictable(2, true);
    assert_eq!(r.evict(), Some(1));
}

#[test]
fn ties_go_to_the_lowest_frame() {
    let mut r = LRUKReplacerInternal::new(3, 2);
    r.set_evictable(3, true);
    r.set_evictable(2, true);
    assert_eq!(r.evict(), Some(2));
    assert_eq!(r.evict(), Some(3));
}

#[test]
fn pinned_frames_are_never_evicted() {
    let mut r = LRUKReplacerInternal::new(2, 2);
    r.record_access(1);
    r.record_access(2);
    r.set_evictable(1, true);
    r.set_evictable(1, false);
    r.set_evictable(2, true);
    assert_eq!(r.evict(), Some(2));
    assert_eq!(r.evict(), None);
}

#[test]
fn eviction_clears_the_history() {
    let mut r = LRUKReplacerInternal::new(2, 2);
    r.record_access(1);
    r.record_access(1);
    r.record_access(2);
    r.record_access(2);
    r.set_evictable(1, true);
    assert_eq!(r.evict(), Some(1));
    // frame 1 starts over with no history: infinite distance beats frame 2
    r.set_evictable(1, true);
    r.set_evictable(2, true);
    assert_eq!(r.evict(), Some(1));
}

#[test]
fn removed_frame_is_not_evictable() {
    let mut r = LRUKReplacerInternal::new(2, 2);
    r.record_access(1);
    r.set_evictable(1, true);
    r.remove(1);
    assert_eq!(r.evict(), None);
}
