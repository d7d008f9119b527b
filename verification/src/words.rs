//! Bytes in 32 bit words, as the FIFO data registers hold them: the first byte of a word is its
//! least significant one.

use vstd::prelude::*;

verus! {

/// The number of words that `len` bytes take.
pub open spec fn word_count(len: int) -> int {
    (len + 3) / 4
}

/// The word made of four bytes, least significant first.
pub open spec fn word_of(b0: u8, b1: u8, b2: u8, b3: u8) -> u32 {
    (b0 + 0x100 * b1 + 0x1_0000 * b2 + 0x100_0000 * b3) as u32
}

/// The byte of a word with the given index, where byte 0 is the least significant one.
pub open spec fn byte_of(word: u32, index: int) -> u8 {
    if index == 0 {
        (word % 0x100) as u8
    } else if index == 1 {
        (word / 0x100 % 0x100) as u8
    } else if index == 2 {
        (word / 0x1_0000 % 0x100) as u8
    } else {
        (word / 0x100_0000) as u8
    }
}

/// The byte at `index`, or zero behind the end.
pub open spec fn byte_or_zero(bytes: Seq<u8>, index: int) -> u8 {
    if index < bytes.len() {
        bytes[index]
    } else {
        0
    }
}

/// The bytes as words. The last word is padded with zeros in its most significant bytes.
pub open spec fn pack(bytes: Seq<u8>) -> Seq<u32> {
    Seq::new(
        word_count(bytes.len() as int) as nat,
        |i: int|
            word_of(
                bytes[4 * i],
                byte_or_zero(bytes, 4 * i + 1),
                byte_or_zero(bytes, 4 * i + 2),
                byte_or_zero(bytes, 4 * i + 3),
            ),
    )
}

/// The first `len` bytes of the words. Further bytes of the last word are dropped.
pub open spec fn unpack(words: Seq<u32>, len: int) -> Seq<u8> {
    Seq::new(len as nat, |i: int| byte_of(words[i / 4], i % 4))
}

/// What goes into a word comes out of it.
pub proof fn lemma_word_bytes(b0: u8, b1: u8, b2: u8, b3: u8)
    ensures
        byte_of(word_of(b0, b1, b2, b3), 0) == b0,
        byte_of(word_of(b0, b1, b2, b3), 1) == b1,
        byte_of(word_of(b0, b1, b2, b3), 2) == b2,
        byte_of(word_of(b0, b1, b2, b3), 3) == b3,
{
    let word = word_of(b0, b1, b2, b3);
    assert(word == b0 + 0x100 * (b1 + 0x100 * (b2 + 0x100 * b3)));
    assert(word / 0x100 == b1 + 0x100 * (b2 + 0x100 * b3));
    assert(word / 0x1_0000 == b2 + 0x100 * b3);
    assert(word / 0x100_0000 == b3);
}

/// The bytes of a word make that word.
pub proof fn lemma_bytes_word(word: u32)
    ensures
        word_of(byte_of(word, 0), byte_of(word, 1), byte_of(word, 2), byte_of(word, 3)) == word,
{
}

/// Bytes that are packed into words and unpacked again are the same bytes.
pub proof fn lemma_unpack_pack(bytes: Seq<u8>)
    ensures
        unpack(pack(bytes), bytes.len() as int) == bytes,
{
    let words = pack(bytes);
    assert forall|i: int| 0 <= i < bytes.len() implies unpack(words, bytes.len() as int)[i]
        == bytes[i] by {
        let w = i / 4;
        lemma_word_bytes(
            bytes[4 * w],
            byte_or_zero(bytes, 4 * w + 1),
            byte_or_zero(bytes, 4 * w + 2),
            byte_or_zero(bytes, 4 * w + 3),
        );
    }
    assert(unpack(words, bytes.len() as int) =~= bytes);
}

/// Words that are unpacked whole and packed again are the same words.
pub proof fn lemma_pack_unpack(words: Seq<u32>)
    ensures
        pack(unpack(words, 4 * words.len() as int)) == words,
{
    let bytes = unpack(words, 4 * words.len() as int);
    assert forall|i: int| 0 <= i < words.len() implies pack(bytes)[i] == words[i] by {
        lemma_bytes_word(words[i]);
    }
    assert(pack(bytes) =~= words);
}

/// Packs four bytes into a word.
fn join(b0: u8, b1: u8, b2: u8, b3: u8) -> (word: u32)
    ensures
        word == word_of(b0, b1, b2, b3),
{
    b0 as u32 + 0x100 * b1 as u32 + 0x1_0000 * b2 as u32 + 0x100_0000 * b3 as u32
}

/// The byte of a word with the given index.
fn split(word: u32, index: usize) -> (byte: u8)
    requires
        index < 4,
    ensures
        byte == byte_of(word, index as int),
{
    match index {
        0 => (word % 0x100) as u8,
        1 => (word / 0x100 % 0x100) as u8,
        2 => (word / 0x1_0000 % 0x100) as u8,
        _ => (word / 0x100_0000) as u8,
    }
}

/// The word that the first four bytes make.
pub fn first_word(bytes: &[u8]) -> (word: u32)
    requires
        bytes@.len() >= 4,
    ensures
        word == word_of(bytes@[0], bytes@[1], bytes@[2], bytes@[3]),
{
    join(bytes[0], bytes[1], bytes[2], bytes[3])
}

/// The byte at `index`, or zero behind the end.
fn get_or_zero(bytes: &[u8], index: usize) -> (byte: u8)
    ensures
        byte == byte_or_zero(bytes@, index as int),
{
    if index < bytes.len() {
        bytes[index]
    } else {
        0
    }
}

/// Copies bytes from `source` to `dest`, four to a word.
///
/// If the number of bytes is not a multiple of 4, the last word is padded with zeros in the most
/// significant bytes. Words of `dest` that are not needed stay as they are.
pub fn read_u8_write_u32(source: &[u8], dest: &mut [u32])
    requires
        word_count(source@.len() as int) <= old(dest)@.len(),
    ensures
        final(dest)@ == pack(source@) + old(dest)@.skip(word_count(source@.len() as int)),
{
    let whole: usize = source.len() / 4;
    let remainder: usize = source.len() % 4;
    let ghost before = dest@;

    let mut i: usize = 0;
    while i < whole
        invariant
            i <= whole,
            whole == source.len() / 4,
            whole <= before.len(),
            dest@.len() == before.len(),
            forall|j: int| 0 <= j < i ==> #[trigger] dest@[j] == pack(source@)[j],
            forall|j: int| i <= j < before.len() ==> #[trigger] dest@[j] == before[j],
        decreases whole - i,
    {
        dest[i] = join(source[4 * i], source[4 * i + 1], source[4 * i + 2], source[4 * i + 3]);
        i += 1;
    }
    if remainder > 0 {
        dest[i] = join(
            source[4 * i],
            get_or_zero(source, 4 * i + 1),
            get_or_zero(source, 4 * i + 2),
            0,
        );
    }
    assert(dest@ =~= pack(source@) + before.skip(word_count(source@.len() as int)));
}

/// Copies bytes from `source` to `dest`, four from a word.
///
/// If the number of bytes is not a multiple of 4, the unneeded most significant bytes of the last
/// word are dropped.
pub fn read_u32_write_u8(source: &[u32], dest: &mut [u8])
    requires
        word_count(old(dest)@.len() as int) <= source@.len(),
    ensures
        final(dest)@ == unpack(source@, old(dest)@.len() as int),
{
    let len: usize = dest.len();
    let mut i: usize = 0;
    while i < len
        invariant
            i <= len,
            dest@.len() == len,
            word_count(len as int) <= source@.len(),
            forall|j: int| 0 <= j < i ==> #[trigger] dest@[j] == unpack(source@, len as int)[j],
        decreases len - i,
    {
        dest[i] = split(source[i / 4], i % 4);
        i += 1;
    }
    assert(dest@ =~= unpack(source@, len as int));
}

} // verus!
