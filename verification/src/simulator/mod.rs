//! The Simpletron: a machine with one accumulator and a memory of words that
//! hold both the program and its data.
//!
//! The machine itself never reads or prints. Before a step the caller asks
//! what the next instruction needs from the console, gets it, and hands it to
//! the step as an event; the step hands back what is to be shown.

pub mod dump;
pub mod operations;

use vstd::prelude::*;
use crate::config::{INSTRUCTIONS_RADIX, MEMORY};
use crate::compiler::passes::{lemma_listing_lines, listing};
use crate::text::{
    hex_word, lemma_trimmed_keeps_word, lemma_word_is_read_back, parse_i32, parse_word, parsed_i32,
    parsed_word, pieces_at, texts, trim, trimmed,
};
use crate::types::{error_of, ErrorKind, ErrorView, MyError};

verus! {

/// Whether the machine runs, has stopped, or has stopped on a fault.
#[derive(Clone, Copy, Debug, PartialEq, Eq, Structural)]
pub enum State {
    Running,
    Halted,
    Crashed,
}

/// The machine: its registers and its memory.
pub struct Simulator {
    pub state: State,
    pub accumulator: i32,
    /// Address of the next instruction.
    pub instruction_counter: u32,
    /// The word that was fetched last.
    pub instruction_register: i32,
    /// The opcode field of the word that was fetched last.
    pub operation_code: u32,
    /// The operand field of the word that was fetched last.
    pub operand: u32,
    pub memory: Vec<i32>,
    /// Whether the caller is to show a dump after each step.
    pub debug: bool,
}

/// The machine under the name it has in the textbooks.
pub type Simpletron = Simulator;

/// The machine as plain mathematical values.
pub struct Machine {
    pub state: State,
    pub accumulator: i32,
    pub instruction_counter: u32,
    pub instruction_register: i32,
    pub operation_code: u32,
    pub operand: u32,
    pub memory: Seq<i32>,
    pub debug: bool,
}

impl View for Simulator {
    type V = Machine;

    open spec fn view(&self) -> Machine {
        Machine {
            state: self.state,
            accumulator: self.accumulator,
            instruction_counter: self.instruction_counter,
            instruction_register: self.instruction_register,
            operation_code: self.operation_code,
            operand: self.operand,
            memory: self.memory@,
            debug: self.debug,
        }
    }
}

/// The error for a line of a program file that is not a word.
pub open spec fn invalid_token(position: usize) -> ErrorView {
    ErrorView { kind: ErrorKind::Io, line: Some(position), details: "Invalid token"@ }
}

/// The error for a program file with more lines than the memory has words.
pub open spec fn too_long() -> ErrorView {
    error_of(ErrorKind::Io, "Program does not fit in memory"@)
}

/// The word that a line of a program file holds: the line without the white space
/// around it, read as a word in the radix of program files.
pub open spec fn word_of(line: Seq<char>) -> Option<i32> {
    parsed_word(trimmed(line), INSTRUCTIONS_RADIX as int)
}

/// The number that a line typed at the console holds: the line without the white
/// space around it, read as a signed decimal integer.
pub open spec fn number_of(line: Seq<char>) -> Option<i32> {
    parsed_i32(trimmed(line), 10)
}

/// The words that the first `n` lines hold, or the error for the first line that
/// holds none. Lines are counted from 1.
pub open spec fn words_of(lines: Seq<Seq<char>>, n: nat) -> Result<Seq<i32>, ErrorView>
    decreases n,
{
    if n == 0 {
        Ok(Seq::empty())
    } else {
        match words_of(lines, (n - 1) as nat) {
            Err(error) => Err(error),
            Ok(words) => match word_of(lines[n - 1]) {
                Some(word) => Ok(words.push(word)),
                None => Err(invalid_token(n as usize)),
            },
        }
    }
}

impl Machine {
    /// The machine has all of its memory.
    pub open spec fn wf(self) -> bool {
        self.memory.len() == MEMORY
    }

    /// A machine that has not run: every register and every word is 0.
    pub open spec fn initial() -> Machine {
        Machine {
            state: State::Halted,
            accumulator: 0,
            instruction_counter: 0,
            instruction_register: 0,
            operation_code: 0,
            operand: 0,
            memory: Seq::new(MEMORY as nat, |i: int| 0i32),
            debug: false,
        }
    }

    /// The result of loading a program file: its words replace the words of memory
    /// from address 0 on. A file with a line that is not a word, or with more
    /// lines than memory has words, is refused.
    pub open spec fn load(self, lines: Seq<Seq<char>>) -> Result<Machine, ErrorView> {
        if lines.len() > MEMORY {
            Err(too_long())
        } else {
            match words_of(lines, lines.len()) {
                Err(error) => Err(error),
                Ok(words) => Ok(
                    Machine { memory: words + self.memory.skip(words.len() as int), ..self },
                ),
            }
        }
    }
}

/// An error stops the reading of a program file: later lines do not change it.
pub proof fn lemma_words_error_stays(lines: Seq<Seq<char>>, n: nat, m: nat)
    requires
        words_of(lines, n) is Err,
        n <= m,
    ensures
        words_of(lines, m) == words_of(lines, n),
    decreases m,
{
    if n < m {
        lemma_words_error_stays(lines, n, (m - 1) as nat);
    }
}

/// Lines that hold the eight digits of words are read as those words.
pub proof fn lemma_words_are_read_back(words: Seq<i32>, n: nat)
    requires
        n <= words.len(),
    ensures
        words_of(Seq::new(words.len(), |i: int| hex_word(words[i])), n) == Ok::<
            Seq<i32>,
            ErrorView,
        >(words.take(n as int)),
    decreases n,
{
    if n == 0 {
        assert(words.take(0) =~= Seq::empty());
    } else {
        lemma_words_are_read_back(words, (n - 1) as nat);
        lemma_trimmed_keeps_word(words[n - 1]);
        lemma_word_is_read_back(words[n - 1]);
        assert(words.take(n - 1).push(words[n - 1]) =~= words.take(n as int));
    }
}

/// What the compiler writes, the machine reads back: loading the lines of the
/// listing of a memory image puts the words of the image into memory, from
/// address 0 on.
pub proof fn lemma_listing_is_loaded(machine: Machine, words: Seq<i32>)
    requires
        1 <= words.len() <= MEMORY,
    ensures
        machine.load(pieces_at(listing(words), '\n')) == Ok::<Machine, ErrorView>(
            Machine { memory: words + machine.memory.skip(words.len() as int), ..machine },
        ),
{
    lemma_listing_lines(words);
    lemma_words_are_read_back(words, words.len());
    assert(words.take(words.len() as int) =~= words);
}

/// Reads a word from a line of a program file.
pub fn read_word(line: &str) -> (word: Option<i32>)
    ensures
        word == word_of(line@),
{
    parse_word(trim(line), INSTRUCTIONS_RADIX)
}

/// Reads a decimal number from a line typed at the console.
pub fn read_number(line: &str) -> (number: Option<i32>)
    ensures
        number == number_of(line@),
{
    parse_i32(trim(line), 10)
}

/// The sign of a word as a character.
pub fn sign(x: i32) -> (c: char)
    ensures
        c == if x < 0 {
            '-'
        } else {
            '+'
        },
{
    if x < 0 {
        '-'
    } else {
        '+'
    }
}

/// Reads the words of a program file from its lines.
pub fn read_program(lines: &Vec<String>) -> (result: Result<Vec<i32>, MyError>)
    ensures
        match words_of(texts(lines@), lines@.len()) {
            Ok(words) => result is Ok && result->Ok_0@ == words,
            Err(error) => result is Err && result->Err_0@ == error,
        },
        result is Ok ==> result->Ok_0@.len() == lines@.len(),
{
    let ghost source = texts(lines@);
    let mut words: Vec<i32> = Vec::new();
    let mut i: usize = 0;
    while i < lines.len()
        invariant
            i <= lines@.len(),
            source == texts(lines@),
            words_of(source, i as nat) == Ok::<Seq<i32>, ErrorView>(words@),
            words@.len() == i,
        decreases lines@.len() - i,
    {
        assert(source[i as int] == lines@[i as int]@);
        match read_word(lines[i].as_str()) {
            Some(word) => {
                words.push(word);
            },
            None => {
                proof {
                    lemma_words_error_stays(source, (i + 1) as nat, lines@.len());
                }
                return Err(MyError::new(ErrorKind::Io, "Invalid token").at_line(i + 1));
            },
        }
        i += 1;
    }
    Ok(words)
}

impl Simulator {
    /// A machine that has not run.
    pub fn new() -> (simulator: Simulator)
        ensures
            simulator@ == Machine::initial(),
            simulator@.wf(),
    {
        let mut memory: Vec<i32> = Vec::new();
        let mut i: u32 = 0;
        while i < MEMORY
            invariant
                i <= MEMORY,
                memory@ == Seq::new(i as nat, |k: int| 0i32),
            decreases MEMORY - i,
        {
            memory.push(0);
            i += 1;
            proof {
                assert(memory@ =~= Seq::new(i as nat, |k: int| 0i32));
            }
        }
        Simulator {
            state: State::Halted,
            accumulator: 0,
            instruction_counter: 0,
            instruction_register: 0,
            operation_code: 0,
            operand: 0,
            memory,
            debug: false,
        }
    }

    pub fn set_state(&mut self, state: State)
        ensures
            final(self)@ == (Machine { state, ..old(self)@ }),
    {
        self.state = state;
    }

    pub fn set_instruction_counter(&mut self, instruction_counter: u32)
        ensures
            final(self)@ == (Machine { instruction_counter, ..old(self)@ }),
    {
        self.instruction_counter = instruction_counter;
    }

    pub fn set_debug(&mut self, debug: bool)
        ensures
            final(self)@ == (Machine { debug, ..old(self)@ }),
    {
        self.debug = debug;
    }

    /// The sign of a word as a character.
    pub fn sign(&self, x: i32) -> (c: char)
        ensures
            c == if x < 0 {
                '-'
            } else {
                '+'
            },
    {
        sign(x)
    }

    /// Loads a program from the lines of a program file. On an error the machine
    /// is left as it was.
    pub fn load(&mut self, lines: &Vec<String>) -> (result: Result<(), MyError>)
        requires
            old(self)@.wf(),
        ensures
            match old(self)@.load(texts(lines@)) {
                Ok(machine) => result is Ok && final(self)@ == machine,
                Err(error) => result is Err && result->Err_0@ == error && final(self)@ == old(
                    self,
                )@,
            },
            final(self)@.wf(),
    {
        if lines.len() > MEMORY as usize {
            return Err(MyError::new(ErrorKind::Io, "Program does not fit in memory"));
        }
        let words = match read_program(lines) {
            Ok(words) => words,
            Err(error) => return Err(error),
        };
        let mut k: usize = 0;
        proof {
            assert(self.memory@ =~= words@.take(0) + old(self)@.memory.skip(0));
        }
        while k < words.len()
            invariant
                k <= words@.len(),
                words@.len() <= MEMORY,
                self.memory@.len() == MEMORY,
                old(self)@.memory.len() == MEMORY,
                self@ == (Machine {
                    memory: words@.take(k as int) + old(self)@.memory.skip(k as int),
                    ..old(self)@
                }),
            decreases words@.len() - k,
        {
            let word = words[k];
            self.memory[k] = word;
            k += 1;
            proof {
                assert(self.memory@ =~= words@.take(k as int) + old(self)@.memory.skip(k as int));
            }
        }
        proof {
            assert(words@.take(k as int) =~= words@);
        }
        Ok(())
    }

    /// Takes one word of a program typed at the console, for address `address`. The
    /// word -10000 ends the program and is not stored. Returns whether the program
    /// goes on.
    pub fn enter(&mut self, address: usize, word: i32) -> (more: bool)
        requires
            old(self)@.wf(),
            address < MEMORY,
        ensures
            more == (word != -10000),
            more ==> final(self)@ == (Machine {
                memory: old(self)@.memory.update(address as int, word),
                ..old(self)@
            }),
            !more ==> final(self)@ == old(self)@,
    {
        if word == -10000 {
            return false;
        }
        self.memory[address] = word;
        true
    }
}

impl Default for Simulator {
    fn default() -> (simulator: Simulator)
        ensures
            simulator@ == Machine::initial(),
    {
        Simulator::new()
    }
}

} // verus!
