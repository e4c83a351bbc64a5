//! The storage format of embeddings: each 32-bit word (the bit pattern of
//! one embedding component) is stored as four little-endian bytes, and a
//! stored blob is read back four bytes at a time, ignoring a trailing
//! partial group.

use vstd::prelude::*;

verus! {

/// The four little-endian bytes of `w`.
pub open spec fn le_bytes(w: u32) -> Seq<u8> {
    seq![
        (w % 256) as u8,
        ((w / 256) % 256) as u8,
        ((w / 65536) % 256) as u8,
        (w / 16777216) as u8,
    ]
}

/// The word whose little-endian bytes are `b0, b1, b2, b3`.
pub open spec fn le_word(b0: u8, b1: u8, b2: u8, b3: u8) -> u32 {
    (b0 + 256 * b1 + 65536 * b2 + 16777216 * b3) as u32
}

/// The bytes of `words`, each word as its four little-endian bytes.
pub open spec fn encoded(words: Seq<u32>) -> Seq<u8>
    decreases words.len(),
{
    if words.len() == 0 {
        Seq::empty()
    } else {
        encoded(words.drop_last()) + le_bytes(words.last())
    }
}

/// The words read back from `bytes`, one per complete group of four.
pub open spec fn decoded(bytes: Seq<u8>) -> Seq<u32> {
    Seq::new(
        bytes.len() / 4,
        |i: int| le_word(bytes[4 * i], bytes[4 * i + 1], bytes[4 * i + 2], bytes[4 * i + 3]),
    )
}

proof fn lemma_word_bytes(w: u32)
    ensures
        le_word(le_bytes(w)[0], le_bytes(w)[1], le_bytes(w)[2], le_bytes(w)[3]) == w,
{
    assert((w % 256) + 256 * ((w / 256) % 256) + 65536 * ((w / 65536) % 256) + 16777216 * (w
        / 16777216) == w) by (bit_vector);
    assert(w / 16777216 < 256) by (bit_vector);
}

proof fn lemma_encoded_layout(words: Seq<u32>)
    ensures
        encoded(words).len() == 4 * words.len(),
        forall|i: int, k: int|
            0 <= i < words.len() && 0 <= k < 4 ==> #[trigger] encoded(words)[4 * i + k] == le_bytes(
                words[i],
            )[k],
    decreases words.len(),
{
    if words.len() > 0 {
        let prefix = words.drop_last();
        lemma_encoded_layout(prefix);
        assert forall|i: int, k: int| 0 <= i < words.len() && 0 <= k < 4 implies #[trigger] encoded(
            words,
        )[4 * i + k] == le_bytes(words[i])[k] by {
            if i < prefix.len() {
                assert(encoded(prefix)[4 * i + k] == le_bytes(prefix[i])[k]);
            }
        }
    }
}

/// Reading back what was written gives the same words.
pub proof fn decoding_inverts_encoding(words: Seq<u32>)
    ensures
        decoded(encoded(words)) == words,
{
    lemma_encoded_layout(words);
    let bytes = encoded(words);
    assert forall|i: int| 0 <= i < words.len() implies #[trigger] decoded(bytes)[i] == words[i] by {
        assert(bytes[4 * i + 0] == le_bytes(words[i])[0]);
        assert(bytes[4 * i + 1] == le_bytes(words[i])[1]);
        assert(bytes[4 * i + 2] == le_bytes(words[i])[2]);
        assert(bytes[4 * i + 3] == le_bytes(words[i])[3]);
        lemma_word_bytes(words[i]);
    }
    assert(decoded(bytes) =~= words);
}

/// Writes each word as its four little-endian bytes.
pub fn encode_words(words: &[u32]) -> (bytes: Vec<u8>)
    ensures
        bytes@ == encoded(words@),
{
    let mut bytes: Vec<u8> = Vec::new();
    let mut i: usize = 0;
    while i < words.len()
        invariant
            i <= words.len(),
            bytes@ == encoded(words@.take(i as int)),
        decreases words.len() - i,
    {
        let w = words[i];
        proof {
            assert(words@.take(i + 1).drop_last() =~= words@.take(i as int));
        }
        bytes.push((w % 256) as u8);
        bytes.push(((w / 256) % 256) as u8);
        bytes.push(((w / 65536) % 256) as u8);
        bytes.push((w / 16777216) as u8);
        assert(bytes@ =~= encoded(words@.take(i as int)) + le_bytes(w));
        i = i + 1;
    }
    assert(words@.take(words.len() as int) =~= words@);
    bytes
}

/// Reads the words back, one per complete group of four bytes; a trailing
/// group of fewer than four bytes is ignored.
pub fn decode_words(bytes: &[u8]) -> (words: Vec<u32>)
    ensures
        words@ == decoded(bytes@),
{
    let n = bytes.len() / 4;
    let mut words: Vec<u32> = Vec::new();
    let mut i: usize = 0;
    while i < n
        invariant
            n == bytes@.len() / 4,
            i <= n,
            words@ == decoded(bytes@).take(i as int),
        decreases n - i,
    {
        assert(4 * i + 3 < bytes.len()) by (nonlinear_arith)
            requires
                i < n,
                n == bytes@.len() / 4,
        ;
        let b0 = bytes[4 * i];
        let b1 = bytes[4 * i + 1];
        let b2 = bytes[4 * i + 2];
        let b3 = bytes[4 * i + 3];
        let w = (b0 as u32) + 256 * (b1 as u32) + 65536 * (b2 as u32) + 16777216 * (b3 as u32);
        words.push(w);
        assert(words@ =~= decoded(bytes@).take(i + 1));
        i = i + 1;
    }
    assert(decoded(bytes@).take(n as int) =~= decoded(bytes@));
    words
}

} // verus!
