//! The ATA data port moves 16-bit words; block contents and buffers are
//! byte sequences.  This module fixes the two byte orders the protocol
//! uses: the data port is little-endian (low byte first), while the words
//! of an IDENTIFY payload carry their text big-endian (high byte first).
use vstd::prelude::*;

verus! {

/// Low byte of a data-port word.
pub open spec fn word_lo(w: u16) -> u8 {
    (w & 0xFF) as u8
}

/// High byte of a data-port word.
pub open spec fn word_hi(w: u16) -> u8 {
    (w >> 8) as u8
}

/// The word that the byte pair (`lo`, `hi`) forms, little-endian.
pub open spec fn word_of(lo: u8, hi: u8) -> u16 {
    (lo as u16) | ((hi as u16) << 8)
}

/// The byte stream that a word stream puts on the data port: each word
/// contributes its low byte, then its high byte.
pub open spec fn words_to_le_bytes(ws: Seq<u16>) -> Seq<u8> {
    Seq::new(2 * ws.len(), |i: int| if i % 2 == 0 { word_lo(ws[i / 2]) } else { word_hi(ws[i / 2]) })
}

/// The word stream that a byte stream of even length forms, little-endian.
pub open spec fn le_bytes_to_words(bs: Seq<u8>) -> Seq<u16> {
    Seq::new(bs.len() / 2, |i: int| word_of(bs[2 * i], bs[2 * i + 1]))
}

/// The byte view of an IDENTIFY payload: each word byte-swapped, high
/// byte first, per the ATA IDENTIFY string convention.
pub open spec fn words_to_be_bytes(ws: Seq<u16>) -> Seq<u8> {
    Seq::new(2 * ws.len(), |i: int| if i % 2 == 0 { word_hi(ws[i / 2]) } else { word_lo(ws[i / 2]) })
}

proof fn lemma_byte_pair(lo: u8, hi: u8)
    by (bit_vector)
    ensures
        (((lo as u16) | ((hi as u16) << 8)) & 0xFF) as u8 == lo,
        ((((lo as u16) | ((hi as u16) << 8)) >> 8)) as u8 == hi,
{
}

/// Packing an even byte stream into words and unpacking it again gives
/// the stream back.
pub proof fn lemma_bytes_round_trip(bs: Seq<u8>)
    requires
        bs.len() % 2 == 0,
    ensures
        words_to_le_bytes(le_bytes_to_words(bs)) =~= bs,
{
    let ws = le_bytes_to_words(bs);
    assert forall|i: int| 0 <= i < bs.len() implies words_to_le_bytes(ws)[i] == bs[i] by {
        let j = i / 2;
        assert(ws[j] == word_of(bs[2 * j], bs[2 * j + 1]));
        lemma_byte_pair(bs[2 * j], bs[2 * j + 1]);
        if i % 2 == 0 {
            assert(2 * j == i);
        } else {
            assert(2 * j + 1 == i);
        }
    }
}

/// Splits a data-port word into its little-endian byte pair.
pub fn split_word(w: u16) -> (r: (u8, u8))
    ensures
        r.0 == word_lo(w),
        r.1 == word_hi(w),
{
    ((w & 0xFF) as u8, (w >> 8) as u8)
}

/// Joins a little-endian byte pair into a data-port word.
pub fn join_word(lo: u8, hi: u8) -> (w: u16)
    ensures
        w == word_of(lo, hi),
{
    (lo as u16) | ((hi as u16) << 8)
}

} // verus!
