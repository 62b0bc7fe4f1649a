//! The memory image and its two sanctioned accesses: reading and writing a
//! 64-bit word, most significant byte first.

use vstd::prelude::*;

verus! {

/// Size of the memory image in bytes (320 MiB).
pub const MEM_SIZE: usize = 0x1400_0000;

/// The word held by the eight bytes of `mem` that start at `offset`, most
/// significant byte first.
pub open spec fn word_at(mem: Seq<u8>, offset: int) -> u64
    recommends
        0 <= offset,
        offset + 8 <= mem.len(),
{
    (mem[offset] as int * 0x0100_0000_0000_0000 + mem[offset + 1] as int * 0x0001_0000_0000_0000
        + mem[offset + 2] as int * 0x0000_0100_0000_0000 + mem[offset + 3] as int
        * 0x0000_0001_0000_0000 + mem[offset + 4] as int * 0x0100_0000 + mem[offset + 5] as int
        * 0x0001_0000 + mem[offset + 6] as int * 0x0100 + mem[offset + 7] as int) as u64
}

/// Byte `k` of `word`, counted from the most significant one (`k` in `0..8`).
pub open spec fn be_byte(word: u64, k: int) -> u8
    recommends
        0 <= k < 8,
{
    if k == 0 {
        (word as int / 0x0100_0000_0000_0000 % 256) as u8
    } else if k == 1 {
        (word as int / 0x0001_0000_0000_0000 % 256) as u8
    } else if k == 2 {
        (word as int / 0x0000_0100_0000_0000 % 256) as u8
    } else if k == 3 {
        (word as int / 0x0000_0001_0000_0000 % 256) as u8
    } else if k == 4 {
        (word as int / 0x0100_0000 % 256) as u8
    } else if k == 5 {
        (word as int / 0x0001_0000 % 256) as u8
    } else if k == 6 {
        (word as int / 0x0100 % 256) as u8
    } else {
        (word as int % 256) as u8
    }
}

/// The eight bytes of `word`, most significant byte first.
pub open spec fn be_bytes(word: u64) -> Seq<u8> {
    Seq::new(8, |k: int| be_byte(word, k))
}

/// `mem` with the eight bytes from `offset` on replaced by `data`; every
/// other byte is kept.
pub open spec fn store_bytes(mem: Seq<u8>, offset: int, data: Seq<u8>) -> Seq<u8>
    recommends
        0 <= offset,
        offset + 8 <= mem.len(),
        data.len() == 8,
{
    Seq::new(
        mem.len(),
        |i: int|
            if offset <= i < offset + 8 {
                data[i - offset]
            } else {
                mem[i]
            },
    )
}

/// `mem` with `word` stored at `offset`, most significant byte first.
pub open spec fn store_word(mem: Seq<u8>, offset: int, word: u64) -> Seq<u8>
    recommends
        0 <= offset,
        offset + 8 <= mem.len(),
{
    store_bytes(mem, offset, be_bytes(word))
}

/// The two's-complement reading of a word.
pub open spec fn as_signed(word: u64) -> i64 {
    if word < 0x8000_0000_0000_0000 {
        word as i64
    } else {
        (word - 0x1_0000_0000_0000_0000) as i64
    }
}

/// The word whose two's-complement reading is `value`.
pub open spec fn as_unsigned(value: i64) -> u64 {
    if value >= 0 {
        value as u64
    } else {
        (value + 0x1_0000_0000_0000_0000) as u64
    }
}

/// The memory image of a program: the bytes of the program from offset 0
/// on, and zero everywhere else.
pub open spec fn image_of(binary: Seq<u8>) -> Seq<u8> {
    Seq::new(
        MEM_SIZE as nat,
        |i: int|
            if i < binary.len() {
                binary[i]
            } else {
                0u8
            },
    )
}

/// Builds the memory image of a program. Returns nothing where the program
/// is larger than the image.
pub fn load_image(binary: &[u8]) -> (image: Option<Vec<u8>>)
    ensures
        image is Some <==> binary@.len() <= MEM_SIZE,
        image matches Some(mem) ==> mem@ == image_of(binary@),
{
    if binary.len() > MEM_SIZE {
        return None;
    }
    let mut mem: Vec<u8> = vec![0u8; MEM_SIZE];
    let mut i: usize = 0;
    while i < binary.len()
        invariant
            i <= binary@.len() <= MEM_SIZE,
            mem@.len() == MEM_SIZE,
            forall|k: int| 0 <= k < i ==> mem@[k] == binary@[k],
            forall|k: int| i <= k < MEM_SIZE ==> mem@[k] == 0,
        decreases binary@.len() - i,
    {
        mem[i] = binary[i];
        i += 1;
    }
    assert(mem@ =~= image_of(binary@));
    Some(mem)
}

/// Reinterprets a word as a signed number.
pub fn to_signed(word: u64) -> (value: i64)
    ensures
        value == as_signed(word),
        as_unsigned(value) == word,
{
    if word < 0x8000_0000_0000_0000 {
        word as i64
    } else {
        let low: u64 = word - 0x8000_0000_0000_0000;
        low as i64 + i64::MIN
    }
}

/// Reinterprets a signed number as a word.
pub fn to_unsigned(value: i64) -> (word: u64)
    ensures
        word == as_unsigned(value),
        as_signed(word) == value,
{
    if value >= 0 {
        value as u64
    } else {
        let low: i64 = value - i64::MIN;
        low as u64 + 0x8000_0000_0000_0000
    }
}

/// The eight bytes of `word`, most significant byte first.
pub fn to_be_bytes(word: u64) -> (data: [u8; 8])
    ensures
        data@ == be_bytes(word),
{
    let data: [u8; 8] = [
        (word / 0x0100_0000_0000_0000 % 256) as u8,
        (word / 0x0001_0000_0000_0000 % 256) as u8,
        (word / 0x0000_0100_0000_0000 % 256) as u8,
        (word / 0x0000_0001_0000_0000 % 256) as u8,
        (word / 0x0100_0000 % 256) as u8,
        (word / 0x0001_0000 % 256) as u8,
        (word / 0x0100 % 256) as u8,
        (word % 256) as u8,
    ];
    assert(data@ =~= be_bytes(word));
    data
}

/// Reads the word at `offset`.
pub fn read_word(mem: &[u8], offset: usize) -> (word: u64)
    requires
        offset + 8 <= mem@.len(),
    ensures
        word == word_at(mem@, offset as int),
{
    let b0: u64 = mem[offset] as u64;
    let b1: u64 = mem[offset + 1] as u64;
    let b2: u64 = mem[offset + 2] as u64;
    let b3: u64 = mem[offset + 3] as u64;
    let b4: u64 = mem[offset + 4] as u64;
    let b5: u64 = mem[offset + 5] as u64;
    let b6: u64 = mem[offset + 6] as u64;
    let b7: u64 = mem[offset + 7] as u64;
    b0 * 0x0100_0000_0000_0000 + b1 * 0x0001_0000_0000_0000 + b2 * 0x0000_0100_0000_0000 + b3
        * 0x0000_0001_0000_0000 + b4 * 0x0100_0000 + b5 * 0x0001_0000 + b6 * 0x0100 + b7
}

/// Reads the word at `offset` as a signed number.
pub fn read(mem: &[u8], offset: usize) -> (value: i64)
    requires
        offset + 8 <= mem@.len(),
    ensures
        value == as_signed(word_at(mem@, offset as int)),
{
    to_signed(read_word(mem, offset))
}

/// Stores the eight bytes of `data` at `offset`.
pub fn write(mem: &mut [u8], offset: usize, data: &[u8; 8])
    requires
        offset + 8 <= old(mem)@.len(),
    ensures
        final(mem)@ == store_bytes(old(mem)@, offset as int, data@),
{
    let len: usize = mem.len();
    let mut k: usize = 0;
    while k < 8
        invariant
            k <= 8,
            offset + 8 <= len,
            len == old(mem)@.len(),
            mem@.len() == old(mem)@.len(),
            forall|i: int|
                0 <= i < mem@.len() ==> mem@[i] == if offset <= i < offset + k {
                    data@[i - offset]
                } else {
                    old(mem)@[i]
                },
        decreases 8 - k,
    {
        mem[offset + k] = data[k];
        k += 1;
    }
    assert(mem@ =~= store_bytes(old(mem)@, offset as int, data@));
}

/// Stores `word` at `offset`.
pub fn write_word(mem: &mut [u8], offset: usize, word: u64)
    requires
        offset + 8 <= old(mem)@.len(),
    ensures
        final(mem)@ == store_word(old(mem)@, offset as int, word),
{
    let data = to_be_bytes(word);
    write(mem, offset, &data);
}

/// The bytes of a word, weighted by their place, add up to the word.
proof fn lemma_bytes_compose(word: u64)
    ensures
        be_byte(word, 0) as int * 0x0100_0000_0000_0000 + be_byte(word, 1) as int
            * 0x0001_0000_0000_0000 + be_byte(word, 2) as int * 0x0000_0100_0000_0000 + be_byte(
            word,
            3,
        ) as int * 0x0000_0001_0000_0000 + be_byte(word, 4) as int * 0x0100_0000 + be_byte(
            word,
            5,
        ) as int * 0x0001_0000 + be_byte(word, 6) as int * 0x0100 + be_byte(word, 7) as int
            == word as int,
{
    assert((word / 0x0100_0000_0000_0000 % 256) * 0x0100_0000_0000_0000 + (word
        / 0x0001_0000_0000_0000 % 256) * 0x0001_0000_0000_0000 + (word / 0x0000_0100_0000_0000
        % 256) * 0x0000_0100_0000_0000 + (word / 0x0000_0001_0000_0000 % 256)
        * 0x0000_0001_0000_0000 + (word / 0x0100_0000 % 256) * 0x0100_0000 + (word / 0x0001_0000
        % 256) * 0x0001_0000 + (word / 0x0100 % 256) * 0x0100 + word % 256 == word)
        by (bit_vector);
}

/// A word that was stored at an offset is the word read back from it.
pub proof fn lemma_read_after_write(mem: Seq<u8>, offset: int, word: u64)
    requires
        0 <= offset,
        offset + 8 <= mem.len(),
    ensures
        word_at(store_word(mem, offset, word), offset) == word,
        store_word(mem, offset, word).len() == mem.len(),
{
    let after = store_word(mem, offset, word);
    lemma_bytes_compose(word);
    assert(after[offset] == be_byte(word, 0));
    assert(after[offset + 1] == be_byte(word, 1));
    assert(after[offset + 2] == be_byte(word, 2));
    assert(after[offset + 3] == be_byte(word, 3));
    assert(after[offset + 4] == be_byte(word, 4));
    assert(after[offset + 5] == be_byte(word, 5));
    assert(after[offset + 6] == be_byte(word, 6));
    assert(after[offset + 7] == be_byte(word, 7));
}

/// Storing a word leaves every word that does not overlap it as it was.
pub proof fn lemma_write_keeps_other_words(mem: Seq<u8>, offset: int, word: u64, other: int)
    requires
        0 <= offset,
        offset + 8 <= mem.len(),
        0 <= other,
        other + 8 <= mem.len(),
        other + 8 <= offset || offset + 8 <= other,
    ensures
        word_at(store_word(mem, offset, word), other) == word_at(mem, other),
{
}

/// The signed and the unsigned reading of a word determine each other.
pub proof fn lemma_signed_round_trip(word: u64, value: i64)
    ensures
        as_unsigned(as_signed(word)) == word,
        as_signed(as_unsigned(value)) == value,
{
}

} // verus!
