use vstd::prelude::*;

use crate::page::Page;
use crate::shared::{zero_padded, PAGE_SIZE};

verus! {

/// Frames an encoded record as a page: the encoded bytes first, then zeros.
/// An encoding longer than a page does not fit and gives `None`.
pub fn to_buffer(encoded: &[u8]) -> (r: Option<Page>)
    ensures
        r.is_some() <==> encoded@.len() <= PAGE_SIZE,
        r matches Some(buf) ==> buf@ == zero_padded(encoded@, PAGE_SIZE as nat),
{
    if encoded.len() > PAGE_SIZE {
        return None;
    }
    let mut buf = [0u8; PAGE_SIZE];
    let mut i: usize = 0;
    while i < encoded.len()
        invariant
            i <= encoded@.len() <= PAGE_SIZE,
            forall|j: int| 0 <= j < i ==> buf@[j] == encoded@[j],
            forall|j: int| i <= j < PAGE_SIZE ==> buf@[j] == 0u8,
        decreases encoded@.len() - i,
    {
        buf[i] = encoded[i];
        i = i + 1;
    }
    assert(buf@ =~= zero_padded(encoded@, PAGE_SIZE as nat));
    Some(buf)
}

/// Framing loses nothing: a page framed from an encoding starts with exactly
/// that encoding, and only zeros follow, so a decoder that ignores trailing
/// padding reads back the bytes that were framed.
pub proof fn lemma_framing_round_trip(encoded: Seq<u8>)
    requires
        encoded.len() <= PAGE_SIZE,
    ensures
        zero_padded(encoded, PAGE_SIZE as nat).len() == PAGE_SIZE,
        zero_padded(encoded, PAGE_SIZE as nat).subrange(0, encoded.len() as int) == encoded,
        forall|i: int|
            encoded.len() <= i < PAGE_SIZE ==> #[trigger] zero_padded(encoded, PAGE_SIZE as nat)[i]
                == 0u8,
{
    assert(zero_padded(encoded, PAGE_SIZE as nat).subrange(0, encoded.len() as int) =~= encoded);
}

} // verus!
