//! Sizes shared by the compiler and the machine.

use vstd::prelude::*;

verus! {

/// Number of words in the machine's memory.
pub const MEMORY: u32 = 0x100;

/// Radix that packs an opcode and an operand into one word: `opcode * SEP + operand`.
pub const INSTRUCTIONS_SEP: u32 = 0x100;

/// Radix in which words are written in a program file.
pub const INSTRUCTIONS_RADIX: u32 = 16;

/// Reads a number from the console into a word.
pub const READ: u32 = 0x10;

/// Shows a word as a number.
pub const WRITE: u32 = 0x11;

/// Reads a line from the console into a block of words: its length, then one
/// character in each word.
pub const READ_STR: u32 = 0x12;

/// Shows a block of words as text.
pub const WRITE_STR: u32 = 0x13;

/// Loads a word into the accumulator.
pub const LOAD: u32 = 0x20;

/// Stores the accumulator in a word.
pub const STORE: u32 = 0x21;

/// Adds a word to the accumulator.
pub const ADD: u32 = 0x30;

/// Subtracts a word from the accumulator.
pub const SUBTRACT: u32 = 0x31;

/// Divides the accumulator by a word.
pub const DIVIDE: u32 = 0x32;

/// Multiplies the accumulator by a word.
pub const MULTIPLY: u32 = 0x33;

/// Leaves in the accumulator its remainder on division by a word.
pub const MODULUS: u32 = 0x34;

/// Raises the accumulator to the power of a word.
pub const EXPONENTIATE: u32 = 0x35;

/// Goes on at an address.
pub const BRANCH: u32 = 0x40;

/// Goes on at an address if the accumulator is negative.
pub const BRANCH_NEG: u32 = 0x41;

/// Goes on at an address if the accumulator is zero.
pub const BRANCH_ZERO: u32 = 0x42;

/// Stops the machine.
pub const HALT: u32 = 0x43;

/// Switches the dump after each step on or off.
pub const SML_DEBUG: u32 = 0x44;

/// The word that holds `opcode` and `operand`.
pub open spec fn encode(opcode: int, operand: int) -> int {
    opcode * (INSTRUCTIONS_SEP as int) + operand
}

/// The opcode field of a word.
pub open spec fn opcode_of(word: int) -> int {
    word / (INSTRUCTIONS_SEP as int)
}

/// The operand field of a word.
pub open spec fn operand_of(word: int) -> int {
    word % (INSTRUCTIONS_SEP as int)
}

/// Decoding an encoded word gives back the opcode and the operand it was made of,
/// whenever both lie in `[0, SEP)`.
pub proof fn lemma_decode_encode(opcode: int, operand: int)
    requires
        0 <= opcode < INSTRUCTIONS_SEP,
        0 <= operand < INSTRUCTIONS_SEP,
    ensures
        opcode_of(encode(opcode, operand)) == opcode,
        operand_of(encode(opcode, operand)) == operand,
        0 <= encode(opcode, operand) < INSTRUCTIONS_SEP * INSTRUCTIONS_SEP,
{
    assert(opcode * 256 + operand == encode(opcode, operand));
}

} // verus!
