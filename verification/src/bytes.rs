//! Words and bytes: the little-endian reading of stored records, and the
//! machine-order writing of GPU buffer contents.

use vstd::prelude::*;

verus! {

/// The four bytes of `w`, least significant first.
pub open spec fn le_bytes(w: u32) -> Seq<u8> {
    seq![
        (w % 256) as u8,
        (w / 256 % 256) as u8,
        (w / 65536 % 256) as u8,
        (w / 16777216) as u8,
    ]
}

/// The four bytes of `w`, most significant first.
pub open spec fn be_bytes(w: u32) -> Seq<u8> {
    seq![
        (w / 16777216) as u8,
        (w / 65536 % 256) as u8,
        (w / 256 % 256) as u8,
        (w % 256) as u8,
    ]
}

/// Every word of `words` written least significant byte first, in order.
pub open spec fn words_le(words: Seq<u32>) -> Seq<u8> {
    Seq::new(4 * words.len(), |k: int| le_bytes(words[k / 4])[k % 4])
}

/// Every word of `words` written most significant byte first, in order.
pub open spec fn words_be(words: Seq<u32>) -> Seq<u8> {
    Seq::new(4 * words.len(), |k: int| be_bytes(words[k / 4])[k % 4])
}

/// `bytes` is the in-memory image of `words` on a little-endian or on a
/// big-endian machine. Which of the two a given machine produces is not
/// something this library can know; GPU buffers take whichever it is.
pub open spec fn in_machine_order(bytes: Seq<u8>, words: Seq<u32>) -> bool {
    bytes == words_le(words) || bytes == words_be(words)
}

/// The word whose little-endian bytes stand at `bytes[at..at + 4]`.
pub open spec fn le_word(bytes: Seq<u8>, at: int) -> u32 {
    (bytes[at] + 256 * bytes[at + 1] + 65536 * bytes[at + 2] + 16777216 * bytes[at + 3]) as u32
}

/// Reads the little-endian word at `data[at..at + 4]`.
pub fn read_le_word(data: &[u8], at: usize) -> (word: u32)
    requires
        at + 4 <= data@.len(),
    ensures
        word == le_word(data@, at as int),
{
    let b0: u32 = data[at] as u32;
    let b1: u32 = data[at + 1] as u32;
    let b2: u32 = data[at + 2] as u32;
    let b3: u32 = data[at + 3] as u32;
    b0 + 256 * b1 + 65536 * b2 + 16777216 * b3
}

/// Reading back what `le_bytes` wrote gives the word again.
pub proof fn lemma_le_round_trip(w: u32)
    ensures
        le_word(le_bytes(w), 0) == w,
{
}

/// The memory image of four words, through `bytemuck::bytes_of` on a
/// `[u32; 4]`. That function reinterprets the array's storage as bytes without
/// changing it, so the result is sixteen bytes holding the words in order, each
/// in the byte order of the machine.
#[verifier::external_body]
pub(crate) fn block_bytes(words: &[u32; 4]) -> (bytes: Vec<u8>)
    ensures
        in_machine_order(bytes@, words@),
{
    bytemuck::bytes_of(words).to_vec()
}

/// The memory image of a run of words, through `bytemuck::cast_slice` from
/// `u32` to `u8`. A cast to a type of alignment one and size one cannot fail,
/// and reinterprets the storage without changing it, so the result holds the
/// words in order, each in the byte order of the machine.
#[verifier::external_body]
pub(crate) fn words_to_bytes(words: &[u32]) -> (bytes: Vec<u8>)
    ensures
        in_machine_order(bytes@, words@),
{
    bytemuck::cast_slice::<u32, u8>(words).to_vec()
}

} // verus!
