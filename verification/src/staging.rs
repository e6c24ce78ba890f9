//! Words as they travel to and from device buffers.
use vstd::prelude::*;

verus! {

/// Byte `k` of a word counted from its least significant end.
pub open spec fn byte_of(word: u32, k: int) -> u8 {
    if k == 0 {
        (word % 0x100) as u8
    } else if k == 1 {
        (word / 0x100 % 0x100) as u8
    } else if k == 2 {
        (word / 0x1_0000 % 0x100) as u8
    } else {
        (word / 0x100_0000) as u8
    }
}

/// `bytes` holds `words`, each in four bytes, least significant byte first.
pub open spec fn little_endian(bytes: Seq<u8>, words: Seq<u32>) -> bool {
    &&& bytes.len() == words.len() * 4
    &&& forall|i: int, k: int|
        0 <= i < words.len() && 0 <= k < 4 ==> #[trigger] bytes[4 * i + k] == #[trigger] byte_of(
            words[i],
            k,
        )
}

/// `bytes` holds `words`, each in four bytes, most significant byte first.
pub open spec fn big_endian(bytes: Seq<u8>, words: Seq<u32>) -> bool {
    &&& bytes.len() == words.len() * 4
    &&& forall|i: int, k: int|
        0 <= i < words.len() && 0 <= k < 4 ==> #[trigger] bytes[4 * i + k] == #[trigger] byte_of(
            words[i],
            3 - k,
        )
}

/// Calls `bytemuck::cast_slice` from words to bytes. The bytes are those of
/// the words in order, four each, in the byte order of the machine, which is
/// either little- or big-endian; which of the two is left open.
#[verifier::external_body]
fn cast_words(words: &[u32]) -> (bytes: Vec<u8>)
    ensures
        little_endian(bytes@, words@) || big_endian(bytes@, words@),
{
    bytemuck::cast_slice::<u32, u8>(words).to_vec()
}

/// Calls `bytemuck::pod_collect_to_vec` from bytes to words. Every four bytes
/// make one word, in the byte order of the machine, which is either little-
/// or big-endian; which of the two is left open.
#[verifier::external_body]
fn collect_words(bytes: &[u8]) -> (words: Vec<u32>)
    requires
        bytes.len() % 4 == 0,
    ensures
        little_endian(bytes@, words@) || big_endian(bytes@, words@),
{
    bytemuck::pod_collect_to_vec::<u8, u32>(bytes)
}

/// The bytes that carry `words` to a device buffer, in the byte order of the
/// machine.
pub fn device_bytes(words: &[u32]) -> (bytes: Vec<u8>)
    ensures
        bytes.len() == words.len() * 4,
        little_endian(bytes@, words@) || big_endian(bytes@, words@),
{
    cast_words(words)
}

/// The words that a device buffer's bytes carry, or `None` where they are no
/// whole number of words.
pub fn device_words(bytes: &[u8]) -> (words: Option<Vec<u32>>)
    ensures
        words is Some == (bytes.len() % 4 == 0),
        match words {
            Some(w) => w.len() * 4 == bytes.len() && (little_endian(bytes@, w@) || big_endian(
                bytes@,
                w@,
            )),
            None => true,
        },
{
    if bytes.len() % 4 == 0 {
        Some(collect_words(bytes))
    } else {
        None
    }
}

/// In either byte order the bytes determine the words: what is read back in
/// the order it was written is what was written.
pub proof fn law_bytes_determine_words(bytes: Seq<u8>, written: Seq<u32>, read: Seq<u32>)
    requires
        (little_endian(bytes, written) && little_endian(bytes, read)) || (big_endian(
            bytes,
            written,
        ) && big_endian(bytes, read)),
    ensures
        written == read,
{
    assert forall|i: int| 0 <= i < written.len() implies written[i] == read[i] by {
        let w = written[i];
        let r = read[i];
        assert forall|k: int| 0 <= k < 4 implies #[trigger] byte_of(w, k) == byte_of(r, k) by {
            if little_endian(bytes, written) && little_endian(bytes, read) {
                assert(bytes[4 * i + k] == byte_of(written[i], k));
                assert(bytes[4 * i + k] == byte_of(read[i], k));
            } else {
                let j = 3 - k;
                assert(bytes[4 * i + j] == byte_of(written[i], 3 - j));
                assert(bytes[4 * i + j] == byte_of(read[i], 3 - j));
            }
        }
        assert(byte_of(w, 0) == byte_of(r, 0));
        assert(byte_of(w, 1) == byte_of(r, 1));
        assert(byte_of(w, 2) == byte_of(r, 2));
        assert(byte_of(w, 3) == byte_of(r, 3));
    }
    assert(written =~= read);
}

/// The four bytes of a word, least significant first, are its digits to the
/// base 256.
pub proof fn law_bytes_of_a_word(word: u32)
    ensures
        word == byte_of(word, 0) + 0x100 * byte_of(word, 1) + 0x1_0000 * byte_of(word, 2)
            + 0x100_0000 * byte_of(word, 3),
{
}

/// Word `i` takes bytes `4 * i` to `4 * i + 3`, in either byte order: the first
/// of them counts least in the one and most in the other.
pub proof fn law_byte_orders(bytes: Seq<u8>, words: Seq<u32>, i: int)
    requires
        0 <= i < words.len(),
    ensures
        little_endian(bytes, words) ==> bytes.len() == 4 * words.len() && words[i] == bytes[4 * i]
            + 0x100 * bytes[4 * i + 1] + 0x1_0000 * bytes[4 * i + 2] + 0x100_0000 * bytes[4 * i + 3],
        big_endian(bytes, words) ==> bytes.len() == 4 * words.len() && words[i] == bytes[4 * i + 3]
            + 0x100 * bytes[4 * i + 2] + 0x1_0000 * bytes[4 * i + 1] + 0x100_0000 * bytes[4 * i],
{
    law_bytes_of_a_word(words[i]);
    let w = words[i];
    if little_endian(bytes, words) {
        assert(bytes[4 * i + 0] == byte_of(w, 0));
        assert(bytes[4 * i + 1] == byte_of(w, 1));
        assert(bytes[4 * i + 2] == byte_of(w, 2));
        assert(bytes[4 * i + 3] == byte_of(w, 3));
    }
    if big_endian(bytes, words) {
        assert(bytes[4 * i + 0] == byte_of(w, 3 - 0));
        assert(bytes[4 * i + 1] == byte_of(w, 3 - 1));
        assert(bytes[4 * i + 2] == byte_of(w, 3 - 2));
        assert(bytes[4 * i + 3] == byte_of(w, 3 - 3));
    }
}

} // verus!
