//! The program loader: turns a program image into the words of segment
//! zero.

use crate::fault::Fault;
use vstd::prelude::*;

verus! {

/// The 32-bit word whose bytes, most significant first, are `b0` to `b3`.
pub open spec fn be_word(b0: u8, b1: u8, b2: u8, b3: u8) -> u32 {
    (b0 * 0x100_0000 + b1 * 0x1_0000 + b2 * 0x100 + b3) as u32
}

/// Word `i` of a program image: the big-endian value of its bytes `4i` to
/// `4i + 3`.
pub open spec fn word_at(bytes: Seq<u8>, i: int) -> u32
    recommends
        0 <= i,
        4 * i + 3 < bytes.len(),
{
    be_word(bytes[4 * i], bytes[4 * i + 1], bytes[4 * i + 2], bytes[4 * i + 3])
}

/// The words of a program image, in order.
pub open spec fn words_of(bytes: Seq<u8>) -> Seq<u32> {
    Seq::new(bytes.len() / 4, |i: int| word_at(bytes, i))
}

/// Decodes a program image into its code words.
///
/// An image whose length is a multiple of four gives one word for each
/// group of four bytes, read most significant byte first. Any other length
/// is refused.
pub fn load(bytes: &[u8]) -> (program: Result<Vec<u32>, Fault>)
    ensures
        program is Ok <==> bytes@.len() % 4 == 0,
        program matches Ok(words) ==> words@ == words_of(bytes@),
        program matches Err(fault) ==> fault == Fault::MalformedProgram,
{
    let len = bytes.len();
    if len % 4 != 0 {
        return Err(Fault::MalformedProgram);
    }
    let count = len / 4;
    let mut instructions: Vec<u32> = Vec::new();
    let mut i: usize = 0;
    while i < count
        invariant
            len == bytes@.len(),
            count == len / 4,
            len % 4 == 0,
            i <= count,
            instructions@.len() == i,
            forall|k: int| 0 <= k < i ==> instructions@[k] == word_at(bytes@, k),
        decreases count - i,
    {
        let b0 = bytes[4 * i];
        let b1 = bytes[4 * i + 1];
        let b2 = bytes[4 * i + 2];
        let b3 = bytes[4 * i + 3];
        let word: u32 = (b0 as u32) * 0x100_0000 + (b1 as u32) * 0x1_0000 + (b2 as u32) * 0x100
            + (b3 as u32);
        instructions.push(word);
        i += 1;
    }
    assert(instructions@ =~= words_of(bytes@));
    Ok(instructions)
}

} // verus!
