//! Byte images of word buffers, as the GPU reads them.
use vstd::prelude::*;

verus! {

/// The four bytes of `x`, least significant first.
pub open spec fn le_bytes(x: u32) -> Seq<u8> {
    seq![(x & 0xff) as u8, ((x >> 8) & 0xff) as u8, ((x >> 16) & 0xff) as u8, ((x >> 24) & 0xff) as u8]
}

/// The four bytes of `x`, most significant first.
pub open spec fn be_bytes(x: u32) -> Seq<u8> {
    seq![((x >> 24) & 0xff) as u8, ((x >> 16) & 0xff) as u8, ((x >> 8) & 0xff) as u8, (x & 0xff) as u8]
}

pub open spec fn words_le(w: Seq<u32>) -> Seq<u8>
    decreases w.len(),
{
    if w.len() == 0 {
        Seq::empty()
    } else {
        words_le(w.drop_last()) + le_bytes(w.last())
    }
}

pub open spec fn words_be(w: Seq<u32>) -> Seq<u8>
    decreases w.len(),
{
    if w.len() == 0 {
        Seq::empty()
    } else {
        words_be(w.drop_last()) + be_bytes(w.last())
    }
}

/// The words laid out in memory in one of the two byte orders.
pub open spec fn native_bytes(w: Seq<u32>, r: Seq<u8>) -> bool {
    r == words_le(w) || r == words_be(w)
}

pub proof fn lemma_words_bytes_len(w: Seq<u32>)
    ensures
        words_le(w).len() == 4 * w.len(),
        words_be(w).len() == 4 * w.len(),
    decreases w.len(),
{
    if w.len() > 0 {
        lemma_words_bytes_len(w.drop_last());
    }
}

/// Relies on `bytemuck::cast_slice::<u32, u8>`: it reinterprets the words'
/// memory as bytes, four per word in the machine's byte order. The cast to
/// bytes has no alignment or size condition, so it never panics.
#[verifier::external_body]
pub(crate) fn words_as_bytes(w: &Vec<u32>) -> (r: Vec<u8>)
    ensures
        native_bytes(w@, r@),
{
    bytemuck::cast_slice::<u32, u8>(w.as_slice()).to_vec()
}

} // verus!
