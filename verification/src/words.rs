//! Reading 32-bit instruction words out of bytes.

use vstd::prelude::*;
use crate::config::{Config, Endian};

verus! {

/// `x` reduced to 32 bits, as arithmetic on addresses goes.
pub open spec fn wrap32(x: int) -> u32 {
    (x % 0x1_0000_0000) as u32
}

/// Reduces `x` to 32 bits.
pub fn reduce(x: u64) -> (r: u32)
    ensures
        r == wrap32(x as int),
{
    (x % 0x1_0000_0000) as u32
}

/// The word whose bytes, most significant first, are `b0 b1 b2 b3`.
pub open spec fn word_of_bytes(b0: u8, b1: u8, b2: u8, b3: u8) -> u32 {
    (b0 as int * 0x100_0000 + b1 as int * 0x1_0000 + b2 as int * 0x100 + b3 as int) as u32
}

/// The `i`-th word of `bytes` under the byte order `endian`.
pub open spec fn word_at(bytes: Seq<u8>, endian: Endian, i: int) -> u32 {
    match endian {
        Endian::Big => word_of_bytes(
            bytes[4 * i],
            bytes[4 * i + 1],
            bytes[4 * i + 2],
            bytes[4 * i + 3],
        ),
        Endian::Little => word_of_bytes(
            bytes[4 * i + 3],
            bytes[4 * i + 2],
            bytes[4 * i + 1],
            bytes[4 * i],
        ),
    }
}

/// All whole words of `bytes`; up to three trailing bytes are left out.
pub open spec fn words_of(bytes: Seq<u8>, endian: Endian) -> Seq<u32> {
    Seq::new((bytes.len() / 4) as nat, |i: int| word_at(bytes, endian, i))
}

/// Puts four bytes together, most significant first.
pub fn join_bytes(b0: u8, b1: u8, b2: u8, b3: u8) -> (w: u32)
    ensures
        w == word_of_bytes(b0, b1, b2, b3),
{
    let w: u32 = ((b0 as u32) << 24) | ((b1 as u32) << 16) | ((b2 as u32) << 8) | (b3 as u32);
    assert(((b0 as u32) << 24) | ((b1 as u32) << 16) | ((b2 as u32) << 8) | (b3 as u32)
        == b0 as int * 0x100_0000 + b1 as int * 0x1_0000 + b2 as int * 0x100 + b3 as int)
        by (bit_vector);
    w
}

/// Appends the words of `input`, read in the configured byte order, to
/// `output`. A trailing partial word is dropped.
pub fn words_from_bytes(config: &Config, input: &[u8], output: &mut Vec<u32>)
    ensures
        final(output)@ == old(output)@ + words_of(input@, config.endian),
{
    let len: usize = input.len();
    let count: usize = len / 4;
    let mut i: usize = 0;
    while i < count
        invariant
            len == input@.len(),
            4 * count <= len < 4 * count + 4,
            i <= count,
            output@ == old(output)@ + words_of(input@, config.endian).take(i as int),
        decreases count - i,
    {
        let base: usize = 4 * i;
        let word: u32 = match config.endian {
            Endian::Big => join_bytes(
                input[base],
                input[base + 1],
                input[base + 2],
                input[base + 3],
            ),
            Endian::Little => join_bytes(
                input[base + 3],
                input[base + 2],
                input[base + 1],
                input[base],
            ),
        };
        output.push(word);
        i = i + 1;
        assert(words_of(input@, config.endian).take(i as int) == words_of(
            input@,
            config.endian,
        ).take(i - 1).push(word));
    }
    assert(words_of(input@, config.endian).take(count as int) == words_of(input@, config.endian));
}

} // verus!
