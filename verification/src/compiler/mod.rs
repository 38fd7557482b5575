//! The compiler: two passes from Simple source lines to a memory image.
//!
//! Instructions grow upward from address 0, constants and variables grow
//! downward from the last address. A branch to a line that has not been seen
//! yet is emitted with operand 0 and flagged; the second pass adds the line's
//! address to every flagged word.

pub mod commands;
pub mod expression;
pub mod laws;
pub mod passes;
pub mod symbol_table;
pub mod table_entry;
pub mod utils;

use vstd::prelude::*;
use crate::config::{lemma_decode_encode, opcode_of, operand_of, INSTRUCTIONS_SEP, MEMORY};
use crate::types::{error_of, ErrorKind, ErrorView, MyError};
use symbol_table::{distinct, lookup, SymbolTable};
use table_entry::{TableEntry, TableEntryType};

verus! {

/// The compiler's working state.
pub struct Compiler {
    /// Address of the next instruction to emit.
    pub instruction_counter: u32,
    /// Address of the next free data cell.
    pub data_counter: u32,
    /// The memory image under construction: code from the bottom, data from the top.
    pub instructions: Vec<i32>,
    pub symbol_table: SymbolTable,
    /// For each address, the line number whose address is still to be added to
    /// the word there, if any.
    pub flags: Vec<Option<i32>>,
}

/// The compiler's state as plain mathematical values.
pub struct CompilerState {
    pub instruction_counter: u32,
    pub data_counter: u32,
    pub instructions: Seq<i32>,
    pub symbol_table: Seq<TableEntry>,
    pub flags: Seq<Option<i32>>,
}

impl View for Compiler {
    type V = CompilerState;

    open spec fn view(&self) -> CompilerState {
        CompilerState {
            instruction_counter: self.instruction_counter,
            data_counter: self.data_counter,
            instructions: self.instructions@,
            symbol_table: self.symbol_table@,
            flags: self.flags@,
        }
    }
}

/// A word that waits for a branch target: an opcode with operand 0.
pub open spec fn pending(word: i32) -> bool {
    0 <= word < INSTRUCTIONS_SEP * INSTRUCTIONS_SEP && word % (INSTRUCTIONS_SEP as i32) == 0
}

impl CompilerState {
    /// The state of a fresh compiler.
    pub open spec fn initial() -> CompilerState {
        CompilerState {
            instruction_counter: 0,
            data_counter: (MEMORY - 1) as u32,
            instructions: Seq::new(MEMORY as nat, |i: int| 0i32),
            symbol_table: Seq::empty(),
            flags: Seq::new(MEMORY as nat, |i: int| None::<i32>),
        }
    }

    /// The layout invariant: code and data do not overlap, no symbol is entered
    /// twice, every location is an address, and a flag sits only on an emitted
    /// word whose operand is still 0.
    pub open spec fn wf(self) -> bool {
        &&& self.instructions.len() == MEMORY
        &&& self.flags.len() == MEMORY
        &&& self.data_counter < MEMORY
        &&& self.instruction_counter <= self.data_counter + 1
        &&& distinct(self.symbol_table)
        &&& forall|i: int|
            0 <= i < self.symbol_table.len() ==> (#[trigger] self.symbol_table[i]).location < MEMORY
        &&& forall|i: int|
            0 <= i < MEMORY && (#[trigger] self.flags[i]) is Some ==> i < self.instruction_counter
                && pending(self.instructions[i])
    }

    /// The cell at the instruction counter is free.
    pub open spec fn can_emit(self) -> bool {
        self.instruction_counter <= self.data_counter
    }

    /// The cell at the data counter is free and the counter can move down.
    pub open spec fn can_allocate(self) -> bool {
        self.instruction_counter <= self.data_counter && self.data_counter >= 1
    }

    /// Code and data have met: the program does not fit.
    pub open spec fn exhausted(self) -> bool {
        self.data_counter <= self.instruction_counter
    }

    /// The state after the word `operation_code * SEP + operand` is appended to the code.
    pub open spec fn emit(self, operation_code: u32, operand: u32) -> CompilerState {
        CompilerState {
            instructions: self.instructions.update(
                self.instruction_counter as int,
                (operation_code * INSTRUCTIONS_SEP + operand) as i32,
            ),
            instruction_counter: (self.instruction_counter + 1) as u32,
            ..self
        }
    }

    /// The state after the most recently emitted word is flagged with `symbol`.
    pub open spec fn flag(self, symbol: i32) -> CompilerState {
        CompilerState {
            flags: self.flags.update(self.instruction_counter - 1, Some(symbol)),
            ..self
        }
    }

    /// The state after the cell at the data counter is taken.
    pub open spec fn allocate(self) -> CompilerState {
        CompilerState { data_counter: (self.data_counter - 1) as u32, ..self }
    }

    /// The state after line `symbol` is entered at the current instruction counter.
    pub open spec fn enter_line(self, symbol: i32) -> CompilerState {
        CompilerState {
            symbol_table: self.symbol_table.push(
                TableEntry {
                    symbol,
                    entry_type: TableEntryType::LineNumber,
                    location: self.instruction_counter,
                },
            ),
            ..self
        }
    }

    /// The entry that `(symbol, entry_type)` has once it has been looked up or created:
    /// the one in the table, or a new one at the data counter.
    pub open spec fn entry_for(self, symbol: i32, entry_type: TableEntryType) -> TableEntry {
        match lookup(self.symbol_table, symbol, entry_type) {
            Some(e) => e,
            None => TableEntry { symbol, entry_type, location: self.data_counter },
        }
    }

    /// The state after `(symbol, entry_type)` has been looked up or created. A symbol
    /// in the table changes nothing. A new one is appended to the table and takes the
    /// cell at the data counter; a constant's value is written into its cell.
    pub open spec fn intern(self, symbol: i32, entry_type: TableEntryType) -> CompilerState {
        if lookup(self.symbol_table, symbol, entry_type) is Some {
            self
        } else {
            CompilerState {
                symbol_table: self.symbol_table.push(self.entry_for(symbol, entry_type)),
                instructions: if entry_type == TableEntryType::Constant {
                    self.instructions.update(self.data_counter as int, symbol)
                } else {
                    self.instructions
                },
                data_counter: (self.data_counter - 1) as u32,
                ..self
            }
        }
    }

    /// Whether `(symbol, entry_type)` can be looked up or created here: it is in the
    /// table, or there is a cell for it.
    pub open spec fn can_intern(self, symbol: i32, entry_type: TableEntryType) -> bool {
        lookup(self.symbol_table, symbol, entry_type) is Some || self.can_allocate()
    }
}

/// The outcome of a step of compilation: the state it leaves, and the error that
/// stopped it, if one did.
pub struct Step {
    pub state: CompilerState,
    pub error: Option<ErrorView>,
}

/// The error of a program that does not fit in memory.
pub open spec fn memory_limit() -> ErrorView {
    error_of(ErrorKind::Resource, "Memory limit exceeded"@)
}

/// Whether `result` reports `error`: success where there is none, that error otherwise.
pub open spec fn reports<T>(result: Result<T, MyError>, error: Option<ErrorView>) -> bool {
    match error {
        None => result is Ok,
        Some(e) => result is Err && result->Err_0@ == e,
    }
}

impl CompilerState {
    /// A step that succeeded and left this state.
    pub open spec fn done(self) -> Step {
        Step { state: self, error: None }
    }

    /// A step that stopped in this state with `error`.
    pub open spec fn failed(self, error: ErrorView) -> Step {
        Step { state: self, error: Some(error) }
    }

    /// Emits an instruction if its cell is free; fails otherwise, changing nothing.
    pub open spec fn emit_checked(self, operation_code: u32, operand: u32) -> Step {
        if self.can_emit() {
            self.emit(operation_code, operand).done()
        } else {
            self.failed(memory_limit())
        }
    }

    /// Takes a data cell if one is free; fails otherwise, changing nothing.
    pub open spec fn allocate_checked(self) -> Step {
        if self.can_allocate() {
            self.allocate().done()
        } else {
            self.failed(memory_limit())
        }
    }

    /// Looks `(symbol, entry_type)` up or creates it if it is known or a data cell is
    /// free; fails otherwise, changing nothing.
    pub open spec fn intern_checked(self, symbol: i32, entry_type: TableEntryType) -> Step {
        if self.can_intern(symbol, entry_type) {
            self.intern(symbol, entry_type).done()
        } else {
            self.failed(memory_limit())
        }
    }

    /// Emits a branch with opcode `operation_code` to line `target`. If the line is
    /// known, the operand is its address. If not, the operand is 0 and the word is
    /// flagged with `target`, for the second pass to resolve.
    pub open spec fn branch(self, operation_code: u32, target: i32) -> Step {
        if !self.can_emit() {
            self.failed(memory_limit())
        } else {
            match lookup(self.symbol_table, target, TableEntryType::LineNumber) {
                Some(line) => self.emit(operation_code, line.location).done(),
                None => self.emit(operation_code, 0).flag(target).done(),
            }
        }
    }
}

impl Step {
    /// This step, then an instruction, unless this step failed.
    pub open spec fn then_emit(self, operation_code: u32, operand: u32) -> Step {
        if self.error is Some {
            self
        } else {
            self.state.emit_checked(operation_code, operand)
        }
    }

    /// This step, then a branch to line `target`, unless this step failed.
    pub open spec fn then_branch(self, operation_code: u32, target: i32) -> Step {
        if self.error is Some {
            self
        } else {
            self.state.branch(operation_code, target)
        }
    }

    /// This step, then a data cell is taken, unless this step failed.
    pub open spec fn then_allocate(self) -> Step {
        if self.error is Some {
            self
        } else {
            self.state.allocate_checked()
        }
    }
}

impl Compiler {
    /// A compiler with empty memory, an empty symbol table and no flags.
    pub fn new() -> (compiler: Compiler)
        ensures
            compiler@ == CompilerState::initial(),
            compiler@.wf(),
    {
        let mut instructions: Vec<i32> = Vec::new();
        let mut flags: Vec<Option<i32>> = Vec::new();
        let mut i: u32 = 0;
        while i < MEMORY
            invariant
                i <= MEMORY,
                instructions@ == Seq::new(i as nat, |k: int| 0i32),
                flags@ == Seq::new(i as nat, |k: int| None::<i32>),
            decreases MEMORY - i,
        {
            instructions.push(0);
            flags.push(None);
            i += 1;
            proof {
                assert(instructions@ =~= Seq::new(i as nat, |k: int| 0i32));
                assert(flags@ =~= Seq::new(i as nat, |k: int| None::<i32>));
            }
        }
        Compiler {
            instruction_counter: 0,
            data_counter: MEMORY - 1,
            instructions,
            symbol_table: SymbolTable::new(),
            flags,
        }
    }

    /// Appends the instruction `operation_code * SEP + operand` and advances the
    /// instruction counter. Nothing else changes. The word decodes to the opcode and
    /// the operand it was made of. Where the cell at the instruction counter was
    /// free, the layout invariant is kept.
    pub fn add_instruction(&mut self, operation_code: u32, operand: u32)
        requires
            old(self).instructions@.len() == MEMORY,
            old(self).instruction_counter < MEMORY,
            operation_code < INSTRUCTIONS_SEP,
            operand < INSTRUCTIONS_SEP,
        ensures
            final(self)@ == old(self)@.emit(operation_code, operand),
            opcode_of(final(self).instructions@[old(self).instruction_counter as int] as int)
                == operation_code,
            operand_of(final(self).instructions@[old(self).instruction_counter as int] as int)
                == operand,
            old(self)@.wf() && old(self)@.can_emit() ==> final(self)@.wf(),
    {
        proof {
            lemma_decode_encode(operation_code as int, operand as int);
        }
        let at = self.instruction_counter as usize;
        self.instructions[at] = (operation_code * INSTRUCTIONS_SEP + operand) as i32;
        self.instruction_counter += 1;
    }

    /// Flags the most recently emitted instruction: the address of line `symbol` is
    /// still to be added to it. That instruction was emitted with operand 0.
    pub fn add_flag(&mut self, symbol: i32)
        requires
            old(self)@.wf(),
            old(self).instruction_counter >= 1,
            pending(old(self).instructions@[old(self).instruction_counter - 1]),
        ensures
            final(self)@ == old(self)@.flag(symbol),
            final(self)@.wf(),
    {
        let at = self.instruction_counter as usize - 1;
        self.flags[at] = Some(symbol);
    }

    /// Takes the cell at the data counter for a temporary and returns its address.
    pub fn use_data_counter(&mut self) -> (location: u32)
        requires
            old(self)@.wf(),
            old(self)@.can_allocate(),
        ensures
            location == old(self).data_counter,
            final(self)@ == old(self)@.allocate(),
            final(self)@.wf(),
    {
        self.data_counter -= 1;
        self.data_counter + 1
    }

    /// The entry of line `symbol`, if that line has been seen.
    pub fn find_line_number(&self, symbol: i32) -> (found: Option<TableEntry>)
        ensures
            found == lookup(self@.symbol_table, symbol, TableEntryType::LineNumber),
    {
        self.symbol_table.find(symbol, TableEntryType::LineNumber)
    }

    /// The entry of `(symbol, entry_type)`: the one in the table, or a new one at the
    /// data counter, which then moves down by one. A new constant's value is
    /// written into its cell. A new symbol needs a data counter that can move down.
    /// Where the symbol was known or the cell at the data counter was free, the
    /// layout invariant is kept.
    pub fn find_or_create_symbol(&mut self, symbol: i32, entry_type: TableEntryType) -> (entry:
        TableEntry)
        requires
            old(self).instructions@.len() == MEMORY,
            old(self).data_counter < MEMORY,
            lookup(old(self)@.symbol_table, symbol, entry_type) is Some || old(self).data_counter
                >= 1,
        ensures
            entry == old(self)@.entry_for(symbol, entry_type),
            entry.names(symbol, entry_type),
            final(self)@ == old(self)@.intern(symbol, entry_type),
            lookup(final(self)@.symbol_table, symbol, entry_type) == Some(entry),
            old(self)@.wf() && old(self)@.can_intern(symbol, entry_type) ==> final(self)@.wf(),
    {
        proof {
            symbol_table::lemma_lookup(self@.symbol_table, symbol, entry_type);
            let entry = self@.entry_for(symbol, entry_type);
            assert(self@.symbol_table.push(entry).drop_last() =~= self@.symbol_table);
        }
        match self.symbol_table.find(symbol, entry_type) {
            Some(table_entry) => table_entry,
            None => {
                let new_table_entry = TableEntry {
                    symbol,
                    entry_type,
                    location: self.data_counter,
                };
                proof {
                    if self@.wf() {
                        symbol_table::lemma_distinct_push(self@.symbol_table, new_table_entry);
                    }
                }
                self.symbol_table.insert(new_table_entry);
                if entry_type == TableEntryType::Constant {
                    let at = self.data_counter as usize;
                    self.instructions[at] = symbol;
                }
                self.data_counter -= 1;
                new_table_entry
            },
        }
    }
}

impl Compiler {
    /// Emits an instruction, or reports that memory is exhausted.
    pub fn emit(&mut self, operation_code: u32, operand: u32) -> (result: Result<(), MyError>)
        requires
            old(self)@.wf(),
            operation_code < INSTRUCTIONS_SEP,
            operand < INSTRUCTIONS_SEP,
        ensures
            final(self)@ == old(self)@.emit_checked(operation_code, operand).state,
            reports(result, old(self)@.emit_checked(operation_code, operand).error),
            final(self)@.wf(),
    {
        if self.instruction_counter <= self.data_counter {
            self.add_instruction(operation_code, operand);
            Ok(())
        } else {
            Err(MyError::new(ErrorKind::Resource, "Memory limit exceeded"))
        }
    }

    /// Takes a data cell for a temporary, or reports that memory is exhausted.
    pub fn allocate(&mut self) -> (result: Result<u32, MyError>)
        requires
            old(self)@.wf(),
        ensures
            final(self)@ == old(self)@.allocate_checked().state,
            reports(result, old(self)@.allocate_checked().error),
            result is Ok ==> result->Ok_0 == old(self).data_counter,
            final(self)@.wf(),
    {
        if self.instruction_counter <= self.data_counter && self.data_counter >= 1 {
            Ok(self.use_data_counter())
        } else {
            Err(MyError::new(ErrorKind::Resource, "Memory limit exceeded"))
        }
    }

    /// Looks a symbol up or creates it, or reports that memory is exhausted.
    pub fn intern(&mut self, symbol: i32, entry_type: TableEntryType) -> (result: Result<
        TableEntry,
        MyError,
    >)
        requires
            old(self)@.wf(),
        ensures
            final(self)@ == old(self)@.intern_checked(symbol, entry_type).state,
            reports(result, old(self)@.intern_checked(symbol, entry_type).error),
            result is Ok ==> result->Ok_0 == old(self)@.entry_for(symbol, entry_type)
                && result->Ok_0.location < MEMORY,
            final(self)@.wf(),
    {
        let known = self.symbol_table.find(symbol, entry_type).is_some();
        if known || (self.instruction_counter <= self.data_counter && self.data_counter >= 1) {
            proof {
                symbol_table::lemma_lookup(self@.symbol_table, symbol, entry_type);
            }
            Ok(self.find_or_create_symbol(symbol, entry_type))
        } else {
            Err(MyError::new(ErrorKind::Resource, "Memory limit exceeded"))
        }
    }

    /// Emits a branch to line `target`, flagged if the line is not known yet, or
    /// reports that memory is exhausted.
    pub fn branch(&mut self, operation_code: u32, target: i32) -> (result: Result<(), MyError>)
        requires
            old(self)@.wf(),
            operation_code < INSTRUCTIONS_SEP,
        ensures
            final(self)@ == old(self)@.branch(operation_code, target).state,
            reports(result, old(self)@.branch(operation_code, target).error),
            final(self)@.wf(),
    {
        if self.instruction_counter > self.data_counter {
            return Err(MyError::new(ErrorKind::Resource, "Memory limit exceeded"));
        }
        match self.find_line_number(target) {
            Some(line) => {
                proof {
                    symbol_table::lemma_lookup(
                        self@.symbol_table,
                        target,
                        TableEntryType::LineNumber,
                    );
                }
                self.add_instruction(operation_code, line.location);
            },
            None => {
                self.add_instruction(operation_code, 0);
                proof {
                    assert((operation_code * INSTRUCTIONS_SEP) as i32 % (INSTRUCTIONS_SEP as i32)
                        == 0) by (nonlinear_arith)
                        requires
                            operation_code < INSTRUCTIONS_SEP,
                            INSTRUCTIONS_SEP == 0x100,
                    ;
                }
                self.add_flag(target);
            },
        }
        Ok(())
    }
}

impl Default for Compiler {
    fn default() -> (compiler: Compiler)
        ensures
            compiler@ == CompilerState::initial(),
    {
        Compiler::new()
    }
}

} // verus!
