//! The dump: the registers and the whole memory as text.

use vstd::prelude::*;
use vstd::string::StringExecFns;
use super::{Machine, Simulator};
use crate::config::{INSTRUCTIONS_RADIX, MEMORY};
use crate::text::{bits, hex_digits, padded, to_hex_padded};

verus! {

/// Number of words in a row of the dump.
pub const COLUMNS: u32 = INSTRUCTIONS_RADIX;

/// Number of rows of the dump.
pub const ROWS: u32 = MEMORY / INSTRUCTIONS_RADIX;

/// The sign of a word as text.
pub open spec fn sign_text(word: i32) -> Seq<char> {
    if word < 0 {
        "-"@
    } else {
        "+"@
    }
}

/// A word in the dump: its sign, then its 32 bits in hexadecimal, at least four digits.
pub open spec fn word_text(word: i32) -> Seq<char> {
    sign_text(word) + padded(hex_digits(bits(word) as nat), 4)
}

/// A counter in the dump: in hexadecimal, at least two digits.
pub open spec fn counter_text(value: u32) -> Seq<char> {
    padded(hex_digits(value as nat), 2)
}

/// The heading of the memory table up to column `n`: six characters for each
/// column, the last of them the column's number.
pub open spec fn heading(n: nat) -> Seq<char>
    decreases n,
{
    if n == 0 {
        "  "@
    } else {
        heading((n - 1) as nat) + "     "@ + hex_digits((n - 1) as nat)
    }
}

impl Machine {
    /// The first `n` words of row `row` of the memory table, a space before each.
    pub open spec fn cells(self, row: int, n: nat) -> Seq<char>
        decreases n,
    {
        if n == 0 {
            Seq::empty()
        } else {
            self.cells(row, (n - 1) as nat) + " "@ + word_text(self.memory[row * COLUMNS + n - 1])
        }
    }

    /// The first `n` rows of the memory table. A row starts with the address of its
    /// first word and ends with a line feed.
    pub open spec fn rows(self, n: nat) -> Seq<char>
        decreases n,
    {
        if n == 0 {
            Seq::empty()
        } else {
            self.rows((n - 1) as nat) + hex_digits((n - 1) as nat) + "0"@ + self.cells(
                n - 1,
                COLUMNS as nat,
            ) + "\n"@
        }
    }

    /// The dump: the five registers, one on a line, then the memory as a table.
    pub open spec fn dump(self) -> Seq<char> {
        "REGISTERS:\n"@ + "accumulator\t\t"@ + word_text(self.accumulator) + "\n"@
            + "instruction_counter\t   "@ + counter_text(self.instruction_counter) + "\n"@
            + "instruction_register\t"@ + word_text(self.instruction_register) + "\n"@
            + "operation_code\t\t   "@ + counter_text(self.operation_code) + "\n"@
            + "operand\t\t\t   "@ + counter_text(self.operand) + "\n"@ + "\nMEMORY\n"@ + heading(
            COLUMNS as nat,
        ) + "\n"@ + self.rows(ROWS as nat)
    }
}

/// Appends a word as the dump shows it.
fn push_word(text: &mut String, word: i32)
    ensures
        final(text)@ == old(text)@ + word_text(word),
{
    let unsigned: u32 = if word < 0 {
        ((word as i64) + 0x1_0000_0000) as u32
    } else {
        word as u32
    };
    let ghost before = text@;
    if word < 0 {
        text.append("-");
    } else {
        text.append("+");
    }
    text.append(to_hex_padded(unsigned, 4).as_str());
    proof {
        assert(text@ =~= before + word_text(word));
    }
}

/// Appends a counter as the dump shows it.
fn push_counter(text: &mut String, value: u32)
    ensures
        final(text)@ == old(text)@ + counter_text(value),
{
    text.append(to_hex_padded(value, 2).as_str());
}

impl Simulator {
    /// The registers and the memory as text, for the console to show.
    pub fn dump(&self) -> (text: String)
        requires
            self@.wf(),
        ensures
            text@ == self@.dump(),
    {
        let mut text = String::from_str("REGISTERS:\n");
        text.append("accumulator\t\t");
        push_word(&mut text, self.accumulator);
        text.append("\n");
        text.append("instruction_counter\t   ");
        push_counter(&mut text, self.instruction_counter);
        text.append("\n");
        text.append("instruction_register\t");
        push_word(&mut text, self.instruction_register);
        text.append("\n");
        text.append("operation_code\t\t   ");
        push_counter(&mut text, self.operation_code);
        text.append("\n");
        text.append("operand\t\t\t   ");
        push_counter(&mut text, self.operand);
        text.append("\n");
        text.append("\nMEMORY\n");
        let ghost registers = text@;
        text.append("  ");
        let mut i: u32 = 0;
        while i < COLUMNS
            invariant
                i <= COLUMNS,
                text@ == registers + heading(i as nat),
            decreases COLUMNS - i,
        {
            text.append("     ");
            text.append(to_hex_padded(i, 1).as_str());
            i += 1;
            proof {
                assert(text@ =~= registers + heading(i as nat));
            }
        }
        text.append("\n");
        let ghost top = text@;
        let mut row: u32 = 0;
        proof {
            assert(text@ =~= top + self@.rows(0));
        }
        while row < ROWS
            invariant
                row <= ROWS,
                self@.wf(),
                text@ == top + self@.rows(row as nat),
            decreases ROWS - row,
        {
            let ghost above = text@;
            text.append(to_hex_padded(row, 1).as_str());
            text.append("0");
            let ghost label = text@;
            let mut column: u32 = 0;
            proof {
                assert(text@ =~= label + self@.cells(row as int, 0));
            }
            while column < COLUMNS
                invariant
                    column <= COLUMNS,
                    row < ROWS,
                    self@.wf(),
                    text@ == label + self@.cells(row as int, column as nat),
                decreases COLUMNS - column,
            {
                text.append(" ");
                push_word(&mut text, self.memory[(row * COLUMNS + column) as usize]);
                column += 1;
                proof {
                    assert(text@ =~= label + self@.cells(row as int, column as nat));
                }
            }
            text.append("\n");
            row += 1;
            proof {
                assert(text@ =~= top + self@.rows(row as nat));
            }
        }
        text
    }

    /// What the console is to show after a step that did not fault: the dump while
    /// the debug flag is set, nothing otherwise.
    pub fn trace(&self) -> (text: Option<String>)
        requires
            self@.wf(),
        ensures
            match text {
                Some(dump) => self.debug && dump@ == self@.dump(),
                None => !self.debug,
            },
    {
        if self.debug {
            Some(self.dump())
        } else {
            None
        }
    }
}

} // verus!
