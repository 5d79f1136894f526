use vstd::prelude::*;
use vstd::string::StringSliceAdditionalSpecFns;

verus! {

pub type FrameId = isize;

pub type PageId = isize;

pub type Oid = u16;

pub const HEADER_ID: usize = 0;

pub const PAGE_SIZE: usize = 4096;

pub const BUFFER_POOL_SIZE: usize = 50;

pub const INVALID_FRAME_ID: isize = -1;

pub const INVALID_PAGE_ID: isize = -1;

/// Width in bytes of the fixed text fields of a `Song` record.
pub const SONG_FIELD_LEN: usize = 50;

/// `bytes` followed by zeros up to `len` bytes.
pub open spec fn zero_padded(bytes: Seq<u8>, len: nat) -> Seq<u8> {
    bytes + Seq::new((len - bytes.len()) as nat, |i: int| 0u8)
}

/// A fixed-layout record used to exercise page I/O. The default id `-1` marks
/// an invalid record; every valid song has a positive id.
#[derive(Clone, Copy)]
pub struct Song {
    pub id: i32,
    pub title: [u8; SONG_FIELD_LEN],
    pub artist: [u8; SONG_FIELD_LEN],
}

impl Song {
    /// A song whose title and artist fields hold the UTF-8 bytes of `title`
    /// and `artist`, padded with zeros.
    pub fn new(id: i32, title: &str, artist: &str) -> (r: Song)
        requires
            title.spec_bytes().len() <= SONG_FIELD_LEN,
            artist.spec_bytes().len() <= SONG_FIELD_LEN,
        ensures
            r.id == id,
            r.title@ == zero_padded(title.spec_bytes(), SONG_FIELD_LEN as nat),
            r.artist@ == zero_padded(artist.spec_bytes(), SONG_FIELD_LEN as nat),
    {
        Song { id, title: fill_field(title.as_bytes()), artist: fill_field(artist.as_bytes()) }
    }
}

impl Default for Song {
    fn default() -> (r: Song)
        ensures
            r.id == -1,
            r.title@ == Seq::new(SONG_FIELD_LEN as nat, |i: int| 0u8),
            r.artist@ == Seq::new(SONG_FIELD_LEN as nat, |i: int| 0u8),
    {
        let r = Song { id: -1, title: [0u8; SONG_FIELD_LEN], artist: [0u8; SONG_FIELD_LEN] };
        assert(r.title@ =~= Seq::new(SONG_FIELD_LEN as nat, |i: int| 0u8));
        assert(r.artist@ =~= Seq::new(SONG_FIELD_LEN as nat, |i: int| 0u8));
        r
    }
}

/// Copies `bytes` into the front of a zeroed field.
fn fill_field(bytes: &[u8]) -> (r: [u8; SONG_FIELD_LEN])
    requires
        bytes@.len() <= SONG_FIELD_LEN,
    ensures
        r@ == zero_padded(bytes@, SONG_FIELD_LEN as nat),
{
    let mut buf = [0u8; SONG_FIELD_LEN];
    let mut i: usize = 0;
    while i < bytes.len()
        invariant
            i <= bytes@.len() <= SONG_FIELD_LEN,
            forall|j: int| 0 <= j < i ==> buf@[j] == bytes@[j],
            forall|j: int| i <= j < SONG_FIELD_LEN ==> buf@[j] == 0u8,
        decreases bytes@.len() - i,
    {
        buf[i] = bytes[i];
        i = i + 1;
    }
    assert(buf@ =~= zero_padded(bytes@, SONG_FIELD_LEN as nat));
    buf
}

} // verus!
