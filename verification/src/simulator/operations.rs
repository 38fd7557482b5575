//! The operations of the machine and the step that fetches, decodes and
//! executes one instruction.

use vstd::prelude::*;
use vstd::string::StrSliceExecFns;
use super::{Machine, Simulator, State};
use crate::config::{
    ADD, BRANCH, BRANCH_NEG, BRANCH_ZERO, DIVIDE, EXPONENTIATE, HALT, INSTRUCTIONS_SEP, LOAD, MEMORY,
    MODULUS, MULTIPLY, READ, READ_STR, SML_DEBUG, STORE, SUBTRACT, WRITE, WRITE_STR,
};
use crate::types::{error_of, ErrorKind, ErrorView, MyError};

verus! {

/// What the console has delivered for an instruction.
pub enum Event {
    /// Nothing was asked for.
    Nothing,
    /// The number that was typed.
    Number(i32),
    /// The line that was typed.
    Text(String),
    /// The console could not be read.
    Failed,
}

/// An event, with its line as a sequence of characters.
pub enum EventView {
    Nothing,
    Number(i32),
    Text(Seq<char>),
    Failed,
}

impl View for Event {
    type V = EventView;

    open spec fn view(&self) -> EventView {
        match self {
            Event::Nothing => EventView::Nothing,
            Event::Number(value) => EventView::Number(*value),
            Event::Text(line) => EventView::Text(line@),
            Event::Failed => EventView::Failed,
        }
    }
}

/// What the console is to show after an instruction.
#[derive(Debug)]
pub enum Action {
    /// Nothing.
    Nothing,
    /// A number on a line of its own.
    Write(i32),
    /// Characters, as they are.
    WriteText(Vec<char>),
    /// That the word at the instruction counter held this opcode, which is none.
    Invalid(u32),
    /// That the program has ended.
    Terminated,
}

/// An action, with its characters as a sequence.
pub enum ActionView {
    Nothing,
    Write(i32),
    WriteText(Seq<char>),
    Invalid(u32),
    Terminated,
}

impl View for Action {
    type V = ActionView;

    open spec fn view(&self) -> ActionView {
        match self {
            Action::Nothing => ActionView::Nothing,
            Action::Write(value) => ActionView::Write(*value),
            Action::WriteText(text) => ActionView::WriteText(text@),
            Action::Invalid(code) => ActionView::Invalid(*code),
            Action::Terminated => ActionView::Terminated,
        }
    }
}

/// What an instruction needs from the console before it can execute.
#[derive(Clone, Copy, Debug, PartialEq, Eq, Structural)]
pub enum Request {
    Nothing,
    Number,
    Text,
}

/// One instruction executed: the machine after it, what is to be shown, and the
/// fault, if there was one.
pub struct Executed {
    pub machine: Machine,
    pub action: ActionView,
    pub fault: Option<ErrorView>,
}

/// The integer `x` as the 32 bits of a word hold it.
pub open spec fn wrap(x: int) -> i32 {
    let low = x % 0x1_0000_0000;
    if low > i32::MAX {
        (low - 0x1_0000_0000) as i32
    } else {
        low as i32
    }
}

/// The quotient of `a` by `b`, rounded towards zero.
pub open spec fn quotient(a: int, b: int) -> int {
    if a == 0 {
        0
    } else if a > 0 && b > 0 {
        a / b
    } else if a < 0 && b < 0 {
        (-a) / (-b)
    } else if a < 0 {
        -((-a) / b)
    } else {
        -(a / (-b))
    }
}

/// The remainder of `a` on division by `b`, with the sign of `a`.
pub open spec fn remainder(a: int, b: int) -> int {
    if a == 0 {
        0
    } else if a > 0 && b > 0 {
        a % b
    } else if a < 0 && b < 0 {
        -((-a) % (-b))
    } else if a < 0 {
        -((-a) % b)
    } else {
        a % (-b)
    }
}

/// `base` multiplied by itself `exponent` times, starting from 1, each product
/// wrapped to a word. An exponent of zero or less gives 1.
pub open spec fn power(base: i32, exponent: int) -> i32
    decreases exponent,
{
    if exponent <= 0 {
        1
    } else {
        wrap(power(base, exponent - 1) * base)
    }
}

/// The opcode field of a word: the word divided by the radix, rounded towards
/// zero, as an unsigned number.
pub open spec fn opcode_field(word: i32) -> u32 {
    if word >= 0 {
        (word as int / (INSTRUCTIONS_SEP as int)) as u32
    } else if (-word) / (INSTRUCTIONS_SEP as int) == 0 {
        0
    } else {
        (0x1_0000_0000 - (-word) / (INSTRUCTIONS_SEP as int)) as u32
    }
}

/// The operand field of a word: the remainder of the word on division by the radix,
/// with the sign of the word, as an unsigned number.
pub open spec fn operand_field(word: i32) -> u32 {
    if word >= 0 {
        (word as int % (INSTRUCTIONS_SEP as int)) as u32
    } else if (-word) % (INSTRUCTIONS_SEP as int) == 0 {
        0
    } else {
        (0x1_0000_0000 - (-word) % (INSTRUCTIONS_SEP as int)) as u32
    }
}

/// The address before `address`, around the end of the 32 bits.
pub open spec fn before(address: u32) -> u32 {
    if address == 0 {
        u32::MAX
    } else {
        (address - 1) as u32
    }
}

/// The address after `address`, around the end of the 32 bits.
pub open spec fn after(address: u32) -> u32 {
    if address == u32::MAX {
        0
    } else {
        (address + 1) as u32
    }
}

/// The low eight bits of a word as a character.
pub open spec fn low_char(word: i32) -> char {
    ((word as int % 256) as u8) as char
}

/// The fault of a division by zero.
pub open spec fn divide_by_zero() -> ErrorView {
    error_of(ErrorKind::Runtime, "Attempt to divide by zero"@)
}

/// The fault of a remainder on division by zero.
pub open spec fn modulo_by_zero() -> ErrorView {
    error_of(ErrorKind::Runtime, "Attempt to modulo by zero"@)
}

/// The fault of a console that did not deliver what the instruction reads.
pub open spec fn read_failed() -> ErrorView {
    error_of(ErrorKind::Io, "Invalid token"@)
}

/// The fault of a block of text that does not lie within memory.
pub open spec fn out_of_range() -> ErrorView {
    error_of(ErrorKind::Runtime, "Memory access out of range"@)
}

/// The fault of an instruction counter that has left memory.
pub open spec fn out_of_memory() -> ErrorView {
    error_of(ErrorKind::Runtime, "Instruction counter out of memory"@)
}

impl Machine {
    /// This machine, nothing to show, no fault.
    pub open spec fn quiet(self) -> Executed {
        Executed { machine: self, action: ActionView::Nothing, fault: None }
    }

    /// This machine with `fault`.
    pub open spec fn faulted(self, fault: ErrorView) -> Executed {
        Executed { machine: self, action: ActionView::Nothing, fault: Some(fault) }
    }

    /// This machine with a new accumulator.
    pub open spec fn with_accumulator(self, accumulator: i32) -> Machine {
        Machine { accumulator, ..self }
    }

    /// This machine with `word` stored at `address`.
    pub open spec fn with_word(self, address: int, word: i32) -> Machine {
        Machine { memory: self.memory.update(address, word), ..self }
    }

    /// This machine about to go on at `address`: the instruction counter is set to
    /// the address before it, since the step advances the counter afterwards.
    pub open spec fn going_to(self, address: u32) -> Machine {
        Machine { instruction_counter: before(address), ..self }
    }

    /// This machine with a block of text at `address`: the number of characters in
    /// the word at `address`, then one character's code in each word after it.
    pub open spec fn with_text(self, address: int, text: Seq<char>) -> Machine {
        Machine {
            memory: Seq::new(
                self.memory.len(),
                |i: int|
                    if i == address {
                        text.len() as i32
                    } else if address < i <= address + text.len() {
                        text[i - address - 1] as i32
                    } else {
                        self.memory[i]
                    },
            ),
            ..self
        }
    }

    /// The text of the block at `address` with `length` characters: the low eight bits
    /// of each word as a character.
    pub open spec fn text_at(self, address: int, length: int) -> Seq<char> {
        Seq::new(length as nat, |i: int| low_char(self.memory[address + 1 + i]))
    }

    /// What the instruction at the instruction counter needs from the console.
    pub open spec fn request(self) -> Request {
        if self.instruction_counter >= MEMORY {
            Request::Nothing
        } else if opcode_field(self.memory[self.instruction_counter as int]) == READ {
            Request::Number
        } else if opcode_field(self.memory[self.instruction_counter as int]) == READ_STR {
            Request::Text
        } else {
            Request::Nothing
        }
    }

    /// The machine after the word at the instruction counter is fetched and decoded.
    pub open spec fn fetch(self) -> Machine {
        let word = self.memory[self.instruction_counter as int];
        Machine {
            instruction_register: word,
            operation_code: opcode_field(word),
            operand: operand_field(word),
            ..self
        }
    }

    /// The operation that the decoded opcode names, applied to the decoded
    /// operand. A word that holds no opcode halts the machine; that is no fault.
    pub open spec fn execute(self, event: EventView) -> Executed {
        let at = self.operand as int;
        let cell = self.memory[at];
        let code = self.operation_code;
        if code == READ {
            match event {
                EventView::Number(value) => self.with_word(at, value).quiet(),
                _ => self.faulted(read_failed()),
            }
        } else if code == WRITE {
            Executed { action: ActionView::Write(cell), ..self.quiet() }
        } else if code == READ_STR {
            match event {
                EventView::Text(text) => if at + 1 + text.len() <= MEMORY {
                    self.with_text(at, text).quiet()
                } else {
                    self.faulted(out_of_range())
                },
                _ => self.faulted(read_failed()),
            }
        } else if code == WRITE_STR {
            if 0 <= cell && at + 1 + cell <= MEMORY {
                Executed {
                    action: ActionView::WriteText(self.text_at(at, cell as int)),
                    ..self.quiet()
                }
            } else {
                self.faulted(out_of_range())
            }
        } else if code == LOAD {
            self.with_accumulator(cell).quiet()
        } else if code == STORE {
            self.with_word(at, self.accumulator).quiet()
        } else if code == ADD {
            self.with_accumulator(wrap(self.accumulator + cell)).quiet()
        } else if code == SUBTRACT {
            self.with_accumulator(wrap(self.accumulator - cell)).quiet()
        } else if code == DIVIDE {
            if cell == 0 {
                self.faulted(divide_by_zero())
            } else {
                self.with_accumulator(wrap(quotient(self.accumulator as int, cell as int))).quiet()
            }
        } else if code == MULTIPLY {
            self.with_accumulator(wrap(self.accumulator * cell)).quiet()
        } else if code == MODULUS {
            if cell == 0 {
                self.faulted(modulo_by_zero())
            } else {
                self.with_accumulator(wrap(remainder(self.accumulator as int, cell as int))).quiet()
            }
        } else if code == EXPONENTIATE {
            self.with_accumulator(power(self.accumulator, cell as int)).quiet()
        } else if code == BRANCH {
            self.going_to(self.operand).quiet()
        } else if code == BRANCH_NEG {
            if self.accumulator < 0 {
                self.going_to(self.operand).quiet()
            } else {
                self.quiet()
            }
        } else if code == BRANCH_ZERO {
            if self.accumulator == 0 {
                self.going_to(self.operand).quiet()
            } else {
                self.quiet()
            }
        } else if code == HALT {
            Executed {
                machine: Machine { state: State::Halted, ..self },
                action: ActionView::Terminated,
                fault: None,
            }
        } else if code == SML_DEBUG {
            (Machine { debug: self.operand != 0, ..self }).quiet()
        } else {
            Executed {
                machine: Machine { state: State::Halted, ..self },
                action: ActionView::Invalid(code),
                fault: None,
            }
        }
    }

    /// One step: fetch, decode, execute, advance. A fault leaves the machine
    /// crashed, with the instruction counter at the instruction that faulted. An
    /// instruction counter outside memory is a fault.
    pub open spec fn step(self, event: EventView) -> Executed {
        if self.instruction_counter >= MEMORY {
            (Machine { state: State::Crashed, ..self }).faulted(out_of_memory())
        } else {
            let executed = self.fetch().execute(event);
            if executed.fault is Some {
                Executed { machine: Machine { state: State::Crashed, ..executed.machine }, ..executed }
            } else {
                Executed {
                    machine: Machine {
                        instruction_counter: after(executed.machine.instruction_counter),
                        ..executed.machine
                    },
                    ..executed
                }
            }
        }
    }
}

/// A division by zero stops the machine where it is: after a step on a `DIVIDE`
/// or `MODULUS` whose operand names a word that holds 0, the machine has crashed,
/// the step reports a fault, and the instruction counter, the accumulator and the
/// memory are what they were.
pub proof fn lemma_fault_containment(machine: Machine, event: EventView)
    requires
        machine.wf(),
        machine.instruction_counter < MEMORY,
        opcode_field(machine.memory[machine.instruction_counter as int]) == DIVIDE || opcode_field(
            machine.memory[machine.instruction_counter as int],
        ) == MODULUS,
        machine.memory[operand_field(machine.memory[machine.instruction_counter as int]) as int]
            == 0,
    ensures
        machine.step(event).machine.state == State::Crashed,
        machine.step(event).fault is Some,
        machine.step(event).fault->Some_0.kind == ErrorKind::Runtime,
        machine.step(event).machine.instruction_counter == machine.instruction_counter,
        machine.step(event).machine.accumulator == machine.accumulator,
        machine.step(event).machine.memory == machine.memory,
{
}

/// Decoding is the inverse of encoding: the word `opcode * SEP + operand`, with both
/// in `[0, SEP)`, decodes to exactly that opcode and that operand.
pub proof fn lemma_decode_inverts_encode(opcode: u32, operand: u32)
    requires
        opcode < INSTRUCTIONS_SEP,
        operand < INSTRUCTIONS_SEP,
    ensures
        opcode_field(crate::config::encode(opcode as int, operand as int) as i32) == opcode,
        operand_field(crate::config::encode(opcode as int, operand as int) as i32) == operand,
{
    crate::config::lemma_decode_encode(opcode as int, operand as int);
}

/// A word that holds an opcode of the machine is not negative, and its operand is
/// an address.
pub proof fn lemma_fields(word: i32)
    ensures
        word >= 0 ==> opcode_field(word) == crate::config::opcode_of(word as int)
            && operand_field(word) == crate::config::operand_of(word as int),
        0 < opcode_field(word) < INSTRUCTIONS_SEP ==> word >= 0,
        word >= 0 ==> operand_field(word) < INSTRUCTIONS_SEP,
{
}

/// The opcode and the operand of a word.
fn decode(word: i32) -> (fields: (u32, u32))
    ensures
        fields.0 == opcode_field(word),
        fields.1 == operand_field(word),
{
    if word >= 0 {
        ((word as u32) / INSTRUCTIONS_SEP, (word as u32) % INSTRUCTIONS_SEP)
    } else {
        let magnitude: i64 = -(word as i64);
        let q = magnitude / (INSTRUCTIONS_SEP as i64);
        let r = magnitude % (INSTRUCTIONS_SEP as i64);
        let code = if q == 0 {
            0
        } else {
            (0x1_0000_0000 - q) as u32
        };
        let operand = if r == 0 {
            0
        } else {
            (0x1_0000_0000 - r) as u32
        };
        (code, operand)
    }
}

/// The quotient of two words, rounded towards zero and wrapped to a word.
fn divide(a: i32, b: i32) -> (q: i32)
    requires
        b != 0,
    ensures
        q == wrap(quotient(a as int, b as int)),
{
    match a.checked_div(b) {
        Some(q) => q,
        None => i32::MIN,
    }
}

/// The remainder of a word on division by another, with the sign of the first.
fn modulo(a: i32, b: i32) -> (r: i32)
    requires
        b != 0,
    ensures
        r == wrap(remainder(a as int, b as int)),
{
    match a.checked_rem(b) {
        Some(r) => r,
        None => 0,
    }
}

/// `base` to the power of `exponent`, by repeated multiplication.
fn raise(base: i32, exponent: i32) -> (result: i32)
    ensures
        result == power(base, exponent as int),
{
    let mut result: i32 = 1;
    let mut i: i32 = 0;
    while i < exponent
        invariant
            0 <= i,
            i <= exponent || (exponent < 0 && i == 0),
            result == power(base, i as int),
        decreases exponent - i,
    {
        result = result.wrapping_mul(base);
        i += 1;
    }
    result
}

/// The low eight bits of a word as a character.
fn low_char_of(word: i32) -> (c: char)
    ensures
        c == low_char(word),
{
    match word.checked_rem_euclid(256) {
        Some(r) => (r as u8) as char,
        None => '\0',
    }
}

impl Simulator {
    /// What the instruction at the instruction counter needs from the console
    /// before the step that executes it.
    pub fn request(&self) -> (request: Request)
        requires
            self@.wf(),
        ensures
            request == self@.request(),
    {
        if self.instruction_counter >= MEMORY {
            return Request::Nothing;
        }
        let (code, _) = decode(self.memory[self.instruction_counter as usize]);
        if code == READ {
            Request::Number
        } else if code == READ_STR {
            Request::Text
        } else {
            Request::Nothing
        }
    }

    /// Stores a block of text at `address`.
    fn store_text(&mut self, address: usize, text: &str)
        requires
            old(self)@.wf(),
            address + 1 + text@.len() <= MEMORY,
        ensures
            final(self)@ == old(self)@.with_text(address as int, text@),
    {
        let length = text.unicode_len();
        self.memory[address] = length as i32;
        let mut i: usize = 0;
        while i < length
            invariant
                i <= length,
                length == text@.len(),
                address + 1 + length <= MEMORY,
                self.memory@.len() == MEMORY,
                self@ == (Machine { memory: self.memory@, ..old(self)@ }),
                forall|k: int|
                    0 <= k < MEMORY ==> #[trigger] self.memory@[k] == if k == address {
                        length as i32
                    } else if address < k <= address + i {
                        text@[k - address - 1] as i32
                    } else {
                        old(self)@.memory[k]
                    },
            decreases length - i,
        {
            let c = text.get_char(i);
            self.memory[address + 1 + i] = c as u32 as i32;
            i += 1;
        }
        proof {
            assert(self.memory@ =~= old(self)@.with_text(address as int, text@).memory);
        }
    }

    /// The text of the block at `address` with `length` characters.
    fn text_at(&self, address: usize, length: usize) -> (text: Vec<char>)
        requires
            self@.wf(),
            address + 1 + length <= MEMORY,
        ensures
            text@ == self@.text_at(address as int, length as int),
    {
        let mut text: Vec<char> = Vec::new();
        let mut i: usize = 0;
        while i < length
            invariant
                i <= length,
                address + 1 + length <= MEMORY,
                self@.wf(),
                text@ == self@.text_at(address as int, i as int),
            decreases length - i,
        {
            text.push(low_char_of(self.memory[address + 1 + i]));
            i += 1;
            proof {
                assert(text@ =~= self@.text_at(address as int, i as int));
            }
        }
        text
    }

    /// Executes the operation that was decoded, on the operand that was decoded.
    fn execute(&mut self, event: Event) -> (result: Result<Action, MyError>)
        requires
            old(self)@.wf(),
            old(self).operation_code == opcode_field(old(self).instruction_register),
            old(self).operand == operand_field(old(self).instruction_register),
        ensures
            final(self)@ == old(self)@.execute(event@).machine,
            match old(self)@.execute(event@).fault {
                Some(fault) => result is Err && result->Err_0@ == fault,
                None => result is Ok && result->Ok_0@ == old(self)@.execute(event@).action,
            },
            final(self)@.wf(),
    {
        let code = self.operation_code;
        proof {
            lemma_fields(self.instruction_register);
        }
        if code < READ || code > SML_DEBUG {
            self.state = State::Halted;
            return Ok(Action::Invalid(code));
        }
        let at = self.operand as usize;
        let cell = self.memory[at];
        if code == READ {
            match event {
                Event::Number(value) => {
                    self.memory[at] = value;
                    Ok(Action::Nothing)
                },
                _ => Err(MyError::new(ErrorKind::Io, "Invalid token")),
            }
        } else if code == WRITE {
            Ok(Action::Write(cell))
        } else if code == READ_STR {
            match event {
                Event::Text(text) => {
                    let length = text.as_str().unicode_len();
                    if length <= MEMORY as usize && at + 1 + length <= MEMORY as usize {
                        self.store_text(at, text.as_str());
                        Ok(Action::Nothing)
                    } else {
                        Err(MyError::new(ErrorKind::Runtime, "Memory access out of range"))
                    }
                },
                _ => Err(MyError::new(ErrorKind::Io, "Invalid token")),
            }
        } else if code == WRITE_STR {
            if 0 <= cell && cell <= MEMORY as i32 && at + 1 + cell as usize <= MEMORY as usize {
                Ok(Action::WriteText(self.text_at(at, cell as usize)))
            } else {
                Err(MyError::new(ErrorKind::Runtime, "Memory access out of range"))
            }
        } else if code == LOAD {
            self.accumulator = cell;
            Ok(Action::Nothing)
        } else if code == STORE {
            self.memory[at] = self.accumulator;
            Ok(Action::Nothing)
        } else if code == ADD {
            self.accumulator = self.accumulator.wrapping_add(cell);
            Ok(Action::Nothing)
        } else if code == SUBTRACT {
            self.accumulator = self.accumulator.wrapping_sub(cell);
            Ok(Action::Nothing)
        } else if code == DIVIDE {
            if cell == 0 {
                return Err(MyError::new(ErrorKind::Runtime, "Attempt to divide by zero"));
            }
            self.accumulator = divide(self.accumulator, cell);
            Ok(Action::Nothing)
        } else if code == MULTIPLY {
            self.accumulator = self.accumulator.wrapping_mul(cell);
            Ok(Action::Nothing)
        } else if code == MODULUS {
            if cell == 0 {
                return Err(MyError::new(ErrorKind::Runtime, "Attempt to modulo by zero"));
            }
            self.accumulator = modulo(self.accumulator, cell);
            Ok(Action::Nothing)
        } else if code == EXPONENTIATE {
            self.accumulator = raise(self.accumulator, cell);
            Ok(Action::Nothing)
        } else if code == BRANCH {
            self.set_instruction_counter(self.operand.wrapping_sub(1));
            Ok(Action::Nothing)
        } else if code == BRANCH_NEG {
            if self.accumulator < 0 {
                self.set_instruction_counter(self.operand.wrapping_sub(1));
            }
            Ok(Action::Nothing)
        } else if code == BRANCH_ZERO {
            if self.accumulator == 0 {
                self.set_instruction_counter(self.operand.wrapping_sub(1));
            }
            Ok(Action::Nothing)
        } else if code == HALT {
            self.set_state(State::Halted);
            Ok(Action::Terminated)
        } else if code == SML_DEBUG {
            self.set_debug(self.operand != 0);
            Ok(Action::Nothing)
        } else {
            self.state = State::Halted;
            Ok(Action::Invalid(code))
        }
    }

    /// Executes the instruction at the instruction counter: fetch, decode, execute,
    /// advance. `event` is what the console delivered for it. Returns what the
    /// console is to show, or the fault that crashed the machine.
    pub fn step(&mut self, event: Event) -> (result: Result<Action, MyError>)
        requires
            old(self)@.wf(),
        ensures
            final(self)@ == old(self)@.step(event@).machine,
            match old(self)@.step(event@).fault {
                Some(fault) => result is Err && result->Err_0@ == fault,
                None => result is Ok && result->Ok_0@ == old(self)@.step(event@).action,
            },
            final(self)@.wf(),
    {
        if self.instruction_counter >= MEMORY {
            self.state = State::Crashed;
            return Err(MyError::new(ErrorKind::Runtime, "Instruction counter out of memory"));
        }
        self.instruction_register = self.memory[self.instruction_counter as usize];
        let (code, operand) = decode(self.instruction_register);
        self.operation_code = code;
        self.operand = operand;
        match self.execute(event) {
            Ok(action) => {
                self.instruction_counter = self.instruction_counter.wrapping_add(1);
                Ok(action)
            },
            Err(error) => {
                self.state = State::Crashed;
                Err(error)
            },
        }
    }
}

} // verus!
