//! Core of a paged storage engine: a buffer pool that caches fixed-size disk
//! pages in frames, an LRU-K replacement policy, and the bookkeeping of the
//! disk manager that owns the backing file.
pub mod shared;
pub mod page;
pub mod io;
pub mod diskmgr;
pub mod lruk;
pub mod bufmgr;
