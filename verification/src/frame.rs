//! The layout of the first stack frame of a routine: alignment, depth and
//! byte order.

use vstd::prelude::*;

verus! {

/// Bytes in the stack buffer of one routine.
pub const DEFAULT_STACK_SIZE: usize = 1024 * 1024 * 2;

/// The stack alignment that the calling convention asks for at a call.
pub const STACK_ALIGNMENT: u64 = 16;

/// Bytes in one machine word.
pub const WORD_SIZE: usize = 8;

/// How far below the aligned top of its stack the entry word of a routine
/// lies. Above the three words of the frame one word is left unused, so that
/// the function and `guard` are each entered with the stack as a call would
/// leave it: 8 bytes off the alignment.
pub const FRAME_DEPTH: usize = 32;

/// Addresses of the two stubs that every new stack is seeded with.
///
/// `skip` does nothing but return to the address above it; `guard` is where a
/// routine lands when its function returns, and reports the routine finished.
#[derive(Clone, Copy, Debug, PartialEq, Eq, Structural)]
pub struct Trampoline {
    pub guard: u64,
    pub skip: u64,
}

/// The highest multiple of the stack alignment that is not above `addr`.
pub open spec fn aligned_down(addr: u64) -> u64 {
    (addr - addr % STACK_ALIGNMENT) as u64
}

/// Byte `k` of `word`, counting from the least significant.
pub open spec fn le_byte(word: u64, k: int) -> u8 {
    ((word >> ((8 * k) as u64)) & 0xff) as u8
}

/// `stack` with `word` stored in the eight bytes from index `at`, the least
/// significant first, as x86-64 stores it.
pub open spec fn with_word(stack: Seq<u8>, at: int, word: u64) -> Seq<u8> {
    Seq::new(
        stack.len(),
        |i: int|
            if at <= i < at + WORD_SIZE {
                le_byte(word, i - at)
            } else {
                stack[i]
            },
    )
}

/// The word that the eight bytes of `stack` from index `at` hold, read as
/// x86-64 reads it: least significant byte first.
pub open spec fn word_at(stack: Seq<u8>, at: int) -> u64 {
    word_of(
        stack[at],
        stack[at + 1],
        stack[at + 2],
        stack[at + 3],
        stack[at + 4],
        stack[at + 5],
        stack[at + 6],
        stack[at + 7],
    )
}

/// The word made of eight bytes, the least significant first.
pub open spec fn word_of(b0: u8, b1: u8, b2: u8, b3: u8, b4: u8, b5: u8, b6: u8, b7: u8) -> u64 {
    (b0 as u64) | (b1 as u64) << 8 | (b2 as u64) << 16 | (b3 as u64) << 24 | (b4 as u64) << 32
        | (b5 as u64) << 40 | (b6 as u64) << 48 | (b7 as u64) << 56
}

/// Rounds an address down to the stack alignment.
pub fn align_down(addr: u64) -> (aligned: u64)
    ensures
        aligned == aligned_down(addr),
        aligned % STACK_ALIGNMENT == 0,
        aligned <= addr < aligned + STACK_ALIGNMENT,
{
    let aligned: u64 = addr & !(STACK_ALIGNMENT - 1);
    assert(addr & !15u64 == addr - addr % 16) by (bit_vector);
    aligned
}

/// Stores `word` into `stack` at byte index `at`, least significant byte first.
pub fn put_word(stack: &mut Vec<u8>, at: usize, word: u64)
    requires
        at + WORD_SIZE <= old(stack)@.len(),
    ensures
        final(stack)@ == with_word(old(stack)@, at as int, word),
{
    let len: usize = stack.len();
    let mut k: usize = 0;
    while k < WORD_SIZE
        invariant
            k <= WORD_SIZE,
            at + WORD_SIZE <= len,
            stack@.len() == len,
            old(stack)@.len() == len,
            forall|i: int|
                0 <= i < stack@.len() ==> #[trigger] stack@[i] == if at <= i < at + k {
                    le_byte(word, i - at)
                } else {
                    old(stack)@[i]
                },
        decreases WORD_SIZE - k,
    {
        let shift: u64 = 8 * (k as u64);
        let byte: u64 = (word >> shift) & 0xff;
        assert(byte < 256) by (bit_vector)
            requires
                byte == (word >> shift) & 0xff,
        ;
        stack[at + k] = byte as u8;
        k += 1;
    }
}

/// A word that was stored is the word that is read.
pub proof fn lemma_word_reads_back(stack: Seq<u8>, at: int, word: u64)
    requires
        0 <= at,
        at + WORD_SIZE <= stack.len(),
    ensures
        word_at(with_word(stack, at, word), at) == word,
{
    let stored = with_word(stack, at, word);
    assert(stored[at] == le_byte(word, 0));
    assert(stored[at + 1] == le_byte(word, 1));
    assert(stored[at + 2] == le_byte(word, 2));
    assert(stored[at + 3] == le_byte(word, 3));
    assert(stored[at + 4] == le_byte(word, 4));
    assert(stored[at + 5] == le_byte(word, 5));
    assert(stored[at + 6] == le_byte(word, 6));
    assert(stored[at + 7] == le_byte(word, 7));
    assert(word_of(
        ((word >> 0u64) & 0xff) as u8,
        ((word >> 8u64) & 0xff) as u8,
        ((word >> 16u64) & 0xff) as u8,
        ((word >> 24u64) & 0xff) as u8,
        ((word >> 32u64) & 0xff) as u8,
        ((word >> 40u64) & 0xff) as u8,
        ((word >> 48u64) & 0xff) as u8,
        ((word >> 56u64) & 0xff) as u8,
    ) == word) by (bit_vector);
}

/// A word stored elsewhere leaves the word at `at` as it was.
pub proof fn lemma_word_stays(stack: Seq<u8>, at: int, other: int, word: u64)
    requires
        0 <= at,
        at + WORD_SIZE <= stack.len(),
        other + WORD_SIZE <= at || at + WORD_SIZE <= other,
    ensures
        word_at(with_word(stack, other, word), at) == word_at(stack, at),
{
}

} // verus!
