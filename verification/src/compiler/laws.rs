//! What holds of the compiler: symbols are created once, emitted code stays as
//! it is, a program that does not fit is refused, and a branch reaches its
//! line whether the line comes before or after it.

use vstd::prelude::*;
use super::commands::{command_named, comparison_named, Codegen, Command, Comparison};
use super::expression::{postfix, shunt};
use super::passes::{lemma_first_dangling, lemma_first_pass_error_stays, line_number};
use super::utils::symbol;
use crate::text::{pieces, uppercase};
use super::symbol_table::{lemma_lookup, lemma_lookup_extends, lookup};
use super::table_entry::{TableEntry, TableEntryType};
use super::{memory_limit, CompilerState, Step};
use crate::config::{
    encode, BRANCH, BRANCH_NEG, BRANCH_ZERO, HALT, INSTRUCTIONS_SEP, LOAD, MEMORY, READ, STORE,
    SUBTRACT, WRITE,
};
use crate::types::{ErrorKind, ErrorView};

verus! {

/// Looking a symbol up or creating it twice is the same as once. After the first
/// call the symbol is in the table with the entry that the call returned; the
/// second call returns that entry and changes nothing. So the data counter moves
/// exactly once for a new symbol, and not at all for a known one.
pub proof fn lemma_find_or_create_idempotent(
    state: CompilerState,
    symbol: i32,
    entry_type: TableEntryType,
)
    requires
        lookup(state.symbol_table, symbol, entry_type) is Some || state.data_counter >= 1,
    ensures
        lookup(state.intern(symbol, entry_type).symbol_table, symbol, entry_type) == Some(
            state.entry_for(symbol, entry_type),
        ),
        state.intern(symbol, entry_type).entry_for(symbol, entry_type) == state.entry_for(
            symbol,
            entry_type,
        ),
        state.intern(symbol, entry_type).intern(symbol, entry_type) == state.intern(
            symbol,
            entry_type,
        ),
        lookup(state.symbol_table, symbol, entry_type) is None ==> state.intern(
            symbol,
            entry_type,
        ).data_counter == state.data_counter - 1,
        lookup(state.symbol_table, symbol, entry_type) is Some ==> state.intern(
            symbol,
            entry_type,
        ) == state,
{
    if lookup(state.symbol_table, symbol, entry_type) is None {
        let entry = state.entry_for(symbol, entry_type);
        assert(state.symbol_table.push(entry).drop_last() =~= state.symbol_table);
    }
}

impl CompilerState {
    /// `later` keeps what this state has: the code below this state's instruction
    /// counter with its flags, and the entries of the symbol table in their order.
    /// The counters have only moved towards each other.
    pub open spec fn grows_to(self, later: CompilerState) -> bool {
        &&& self.instruction_counter <= later.instruction_counter
        &&& later.data_counter <= self.data_counter
        &&& self.symbol_table.len() <= later.symbol_table.len()
        &&& later.symbol_table.take(self.symbol_table.len() as int) == self.symbol_table
        &&& forall|i: int|
            0 <= i < self.instruction_counter ==> #[trigger] later.instructions[i]
                == self.instructions[i]
        &&& forall|i: int|
            0 <= i < self.instruction_counter ==> #[trigger] later.flags[i] == self.flags[i]
    }

    /// No line has been entered between this state and `later`: the entries that
    /// `later` has more are variables and constants.
    pub open spec fn adds_no_line(self, later: CompilerState) -> bool {
        forall|i: int|
            self.symbol_table.len() <= i < later.symbol_table.len() ==> (
            #[trigger] later.symbol_table[i]).entry_type != TableEntryType::LineNumber
    }

    /// The word at address `i` is a branch with opcode `operation_code` to line
    /// `target`: its operand is the line's address, or it is 0 and the word is
    /// flagged with the line.
    pub open spec fn branches_to(self, i: int, operation_code: u32, target: i32) -> bool {
        &&& 0 <= i < self.instruction_counter
        &&& match self.flags[i] {
            Some(flagged) => flagged == target && self.instructions[i] == encode(
                operation_code as int,
                0,
            ),
            None => match lookup(self.symbol_table, target, TableEntryType::LineNumber) {
                Some(line) => self.instructions[i] == encode(
                    operation_code as int,
                    line.location as int,
                ),
                None => false,
            },
        }
    }
}

/// A state grows to itself.
pub proof fn lemma_grows_reflexive(state: CompilerState)
    ensures
        state.grows_to(state),
{
    assert(state.symbol_table.take(state.symbol_table.len() as int) =~= state.symbol_table);
}

/// Growth composes.
pub proof fn lemma_grows_transitive(a: CompilerState, b: CompilerState, c: CompilerState)
    requires
        a.grows_to(b),
        b.grows_to(c),
    ensures
        a.grows_to(c),
{
    assert(c.symbol_table.take(a.symbol_table.len() as int) =~= b.symbol_table.take(
        b.symbol_table.len() as int,
    ).take(a.symbol_table.len() as int)) by {
        assert(c.symbol_table.take(b.symbol_table.len() as int) == b.symbol_table);
        assert(c.symbol_table.take(a.symbol_table.len() as int) =~= c.symbol_table.take(
            b.symbol_table.len() as int,
        ).take(a.symbol_table.len() as int));
        assert(b.symbol_table.take(b.symbol_table.len() as int) =~= b.symbol_table);
    }
    assert(b.symbol_table.take(b.symbol_table.len() as int) =~= b.symbol_table);
    assert forall|i: int| 0 <= i < a.instruction_counter implies #[trigger] c.instructions[i]
        == a.instructions[i] by {
        assert(b.instructions[i] == a.instructions[i]);
    }
    assert forall|i: int| 0 <= i < a.instruction_counter implies #[trigger] c.flags[i]
        == a.flags[i] by {
        assert(b.flags[i] == a.flags[i]);
    }
}

/// Emitting an instruction keeps the layout and what the state had.
pub proof fn lemma_emit_grows(state: CompilerState, operation_code: u32, operand: u32)
    requires
        state.wf(),
        operation_code < INSTRUCTIONS_SEP,
        operand < INSTRUCTIONS_SEP,
    ensures
        state.emit_checked(operation_code, operand).state.wf(),
        state.grows_to(state.emit_checked(operation_code, operand).state),
{
    lemma_grows_reflexive(state);
}

/// Taking a data cell keeps the layout and what the state had.
pub proof fn lemma_allocate_grows(state: CompilerState)
    requires
        state.wf(),
    ensures
        state.allocate_checked().state.wf(),
        state.grows_to(state.allocate_checked().state),
{
    lemma_grows_reflexive(state);
}

/// Looking a symbol up or creating it keeps the layout and what the state had.
pub proof fn lemma_intern_grows(state: CompilerState, symbol: i32, entry_type: TableEntryType)
    requires
        state.wf(),
    ensures
        state.intern_checked(symbol, entry_type).state.wf(),
        state.grows_to(state.intern_checked(symbol, entry_type).state),
        state.intern_checked(symbol, entry_type).error is None ==> state.entry_for(
            symbol,
            entry_type,
        ).location < MEMORY,
{
    lemma_grows_reflexive(state);
    lemma_lookup(state.symbol_table, symbol, entry_type);
    if state.can_intern(symbol, entry_type) && lookup(state.symbol_table, symbol, entry_type)
        is None {
        let entry = state.entry_for(symbol, entry_type);
        let later = state.intern(symbol, entry_type);
        super::symbol_table::lemma_distinct_push(state.symbol_table, entry);
        assert(later.symbol_table.take(state.symbol_table.len() as int) =~= state.symbol_table);
    }
}

/// Emitting a branch keeps the layout and what the state had, and the new word
/// is a branch to its line.
pub proof fn lemma_branch_grows(state: CompilerState, operation_code: u32, target: i32)
    requires
        state.wf(),
        operation_code < INSTRUCTIONS_SEP,
    ensures
        state.branch(operation_code, target).state.wf(),
        state.grows_to(state.branch(operation_code, target).state),
        state.branch(operation_code, target).error is None ==> state.branch(
            operation_code,
            target,
        ).state.branches_to(state.instruction_counter as int, operation_code, target),
{
    lemma_grows_reflexive(state);
    lemma_lookup(state.symbol_table, target, TableEntryType::LineNumber);
    assert((operation_code * INSTRUCTIONS_SEP) as i32 % (INSTRUCTIONS_SEP as i32) == 0)
        by (nonlinear_arith)
        requires
            operation_code < INSTRUCTIONS_SEP,
            INSTRUCTIONS_SEP == 0x100,
    ;
}

/// What a state had stays a branch to its line in every state it grows to: the
/// word and its flag are kept, and so is the line's entry once it exists.
pub proof fn lemma_branch_stays(
    state: CompilerState,
    later: CompilerState,
    i: int,
    operation_code: u32,
    target: i32,
)
    requires
        state.grows_to(later),
        state.branches_to(i, operation_code, target),
    ensures
        later.branches_to(i, operation_code, target),
{
    assert(later.instructions[i] == state.instructions[i]);
    assert(later.flags[i] == state.flags[i]);
    if state.flags[i] is None {
        let n = state.symbol_table.len() as int;
        assert(later.symbol_table =~= state.symbol_table + later.symbol_table.skip(n)) by {
            assert(later.symbol_table.take(n) == state.symbol_table);
        }
        lemma_lookup_extends(
            state.symbol_table,
            later.symbol_table.skip(n),
            target,
            TableEntryType::LineNumber,
        );
    }
}

impl Step {
    /// This step is a step from `start`: it keeps the layout and what `start` had,
    /// and if it failed, then with a syntax error, or for want of memory in a state
    /// in which code and data have met.
    pub open spec fn follows(self, start: CompilerState) -> bool {
        &&& self.state.wf()
        &&& start.grows_to(self.state)
        &&& match self.error {
            None => true,
            Some(error) => error.kind == ErrorKind::Syntax || (error == memory_limit()
                && self.state.exhausted()),
        }
    }
}

impl Step {
    /// This step is a step from `start` that has entered no line.
    pub open spec fn follows_quietly(self, start: CompilerState) -> bool {
        self.follows(start) && start.adds_no_line(self.state)
    }
}

/// Entering no line composes.
pub proof fn lemma_adds_no_line_transitive(a: CompilerState, b: CompilerState, c: CompilerState)
    requires
        a.grows_to(b),
        b.grows_to(c),
        a.adds_no_line(b),
        b.adds_no_line(c),
    ensures
        a.adds_no_line(c),
{
    assert forall|i: int| a.symbol_table.len() <= i < c.symbol_table.len() implies (
    #[trigger] c.symbol_table[i]).entry_type != TableEntryType::LineNumber by {
        if i < b.symbol_table.len() {
            assert(c.symbol_table.take(b.symbol_table.len() as int)[i] == c.symbol_table[i]);
            assert(b.symbol_table[i].entry_type != TableEntryType::LineNumber);
        }
    }
}

/// A step from `start`, then an instruction, is a step from `start`.
pub proof fn lemma_then_emit(start: CompilerState, step: Step, operation_code: u32, operand: u32)
    requires
        step.follows(start),
        operation_code < INSTRUCTIONS_SEP,
        operand < INSTRUCTIONS_SEP,
    ensures
        step.then_emit(operation_code, operand).follows(start),
{
    lemma_emit_grows(step.state, operation_code, operand);
    lemma_grows_transitive(start, step.state, step.then_emit(operation_code, operand).state);
}

/// A step from `start`, then a data cell, is a step from `start`.
pub proof fn lemma_then_allocate(start: CompilerState, step: Step)
    requires
        step.follows(start),
    ensures
        step.then_allocate().follows(start),
{
    lemma_allocate_grows(step.state);
    lemma_grows_transitive(start, step.state, step.then_allocate().state);
}

/// A step from `start`, then a branch, is a step from `start`.
pub proof fn lemma_then_branch(start: CompilerState, step: Step, operation_code: u32, target: i32)
    requires
        step.follows(start),
        operation_code < INSTRUCTIONS_SEP,
    ensures
        step.then_branch(operation_code, target).follows(start),
{
    lemma_branch_grows(step.state, operation_code, target);
    lemma_grows_transitive(start, step.state, step.then_branch(operation_code, target).state);
}

/// A symbol looked up or created from a state is a step from that state.
pub proof fn lemma_intern_follows(state: CompilerState, symbol: i32, entry_type: TableEntryType)
    requires
        state.wf(),
    ensures
        state.intern_checked(symbol, entry_type).follows(state),
        state.intern_checked(symbol, entry_type).error is None ==> state.entry_for(
            symbol,
            entry_type,
        ).location < MEMORY,
{
    lemma_intern_grows(state, symbol, entry_type);
}

/// The conversion of an expression fails only with a syntax error.
pub proof fn lemma_shunt_error(infix: Seq<Seq<char>>, n: nat)
    ensures
        shunt(infix, n) is Err ==> shunt(infix, n)->Err_0.kind == ErrorKind::Syntax,
    decreases n,
{
    if n > 0 {
        lemma_shunt_error(infix, (n - 1) as nat);
    }
}

/// One token of code generation is a step from the state before it, and leaves
/// addresses on the stack.
pub proof fn lemma_read_follows(before: Codegen, token: Seq<char>)
    requires
        before.state.wf(),
        before.addresses(),
        before.error is None,
    ensures
        (Step { state: before.read(token).state, error: before.read(token).error }).follows(
            before.state,
        ),
        before.read(token).addresses(),
{
    let after = before.read(token);
    lemma_grows_reflexive(before.state);
    match symbol(token) {
        Some((value, entry_type)) => {
            lemma_intern_follows(before.state, value, entry_type);
        },
        None => match super::commands::operator_code(token) {
            None => {},
            Some(operation) => {
                if before.stack.len() >= 2 {
                    let second = before.stack[before.stack.len() - 1];
                    let first = before.stack[before.stack.len() - 2];
                    let temporary = before.state.data_counter;
                    let a = before.state.emit_checked(LOAD, first);
                    lemma_emit_grows(before.state, LOAD, first);
                    lemma_then_emit(before.state, a, operation, second);
                    let b = a.then_emit(operation, second);
                    lemma_then_allocate(before.state, b);
                    let c = b.then_allocate();
                    lemma_then_emit(before.state, c, STORE, temporary);
                }
            },
        },
    }
}

/// Code generation for an expression is a step from the state it starts in, and
/// leaves addresses on the stack.
pub proof fn lemma_generate_follows(start: CompilerState, tokens: Seq<Seq<char>>, n: nat)
    requires
        start.wf(),
    ensures
        (Step {
            state: start.generate(tokens, n).state,
            error: start.generate(tokens, n).error,
        }).follows(start),
        start.generate(tokens, n).addresses(),
    decreases n,
{
    lemma_grows_reflexive(start);
    if n > 0 {
        lemma_generate_follows(start, tokens, (n - 1) as nat);
        let before = start.generate(tokens, (n - 1) as nat);
        if before.error is None {
            lemma_read_follows(before, tokens[n - 1]);
            lemma_grows_transitive(start, before.state, before.read(tokens[n - 1]).state);
        }
    }
}

/// The code of a comparison is a step from the state before it.
pub proof fn lemma_compare_follows(
    state: CompilerState,
    comparison: Comparison,
    left: u32,
    right: u32,
    target: i32,
)
    requires
        state.wf(),
        left < MEMORY,
        right < MEMORY,
    ensures
        state.compare(comparison, left, right, target).follows(state),
{
    let (first, second) = match comparison {
        Comparison::Equal | Comparison::Less | Comparison::LessOrEqual => (left, right),
        Comparison::Greater | Comparison::GreaterOrEqual => (right, left),
    };
    lemma_emit_grows(state, LOAD, first);
    let a = state.emit_checked(LOAD, first);
    lemma_then_emit(state, a, SUBTRACT, second);
    let b = a.then_emit(SUBTRACT, second);
    lemma_then_branch(state, b, BRANCH_ZERO, target);
    lemma_then_branch(state, b, BRANCH_NEG, target);
    lemma_then_branch(state, b.then_branch(BRANCH_NEG, target), BRANCH_ZERO, target);
}

/// Every statement is a step from the state before it.
pub proof fn lemma_run_follows(state: CompilerState, command: Command, args: Seq<Seq<char>>)
    requires
        state.wf(),
    ensures
        state.run(command, args).follows(state),
{
    lemma_grows_reflexive(state);
    match command {
        Command::Rem => {},
        Command::Input => {
            if args.len() == 1 && symbol(args[0]) is Some {
                let value = symbol(args[0])->Some_0.0;
                lemma_intern_follows(state, value, TableEntryType::Variable);
                lemma_then_emit(
                    state,
                    state.intern_checked(value, TableEntryType::Variable),
                    READ,
                    state.entry_for(value, TableEntryType::Variable).location,
                );
            }
        },
        Command::Print => {
            if args.len() == 1 && symbol(args[0]) is Some {
                let (value, entry_type) = symbol(args[0])->Some_0;
                lemma_intern_follows(state, value, entry_type);
                lemma_then_emit(
                    state,
                    state.intern_checked(value, entry_type),
                    WRITE,
                    state.entry_for(value, entry_type).location,
                );
            }
        },
        Command::Goto => {
            if args.len() == 1 && symbol(args[0]) is Some {
                lemma_branch_grows(state, BRANCH, symbol(args[0])->Some_0.0);
            }
        },
        Command::If => {
            if args.len() == 5 && symbol(args[0]) is Some && symbol(args[2]) is Some && symbol(
                args[4],
            ) is Some {
                let left = symbol(args[0])->Some_0;
                let right = symbol(args[2])->Some_0;
                let target = symbol(args[4])->Some_0.0;
                lemma_intern_follows(state, left.0, left.1);
                let first = state.intern_checked(left.0, left.1);
                lemma_intern_follows(first.state, right.0, right.1);
                let second = first.state.intern_checked(right.0, right.1);
                lemma_grows_transitive(state, first.state, second.state);
                if first.error is None && second.error is None {
                    match super::commands::comparison_named(args[1]) {
                        None => {},
                        Some(comparison) => {
                            let l = state.entry_for(left.0, left.1).location;
                            let r = first.state.entry_for(right.0, right.1).location;
                            lemma_compare_follows(second.state, comparison, l, r, target);
                            lemma_grows_transitive(
                                state,
                                second.state,
                                second.state.compare(comparison, l, r, target).state,
                            );
                        },
                    }
                }
            }
        },
        Command::Let => {
            if args.len() >= 3 && symbol(args[0]) is Some {
                let value = symbol(args[0])->Some_0.0;
                lemma_intern_follows(state, value, TableEntryType::Variable);
                let variable = state.intern_checked(value, TableEntryType::Variable);
                if variable.error is None {
                    lemma_shunt_error(args.skip(2), args.skip(2).len());
                    match postfix(args.skip(2)) {
                        Err(error) => {},
                        Ok(tokens) => {
                            lemma_generate_follows(variable.state, tokens, tokens.len());
                            let generated = variable.state.generate(tokens, tokens.len());
                            lemma_grows_transitive(state, variable.state, generated.state);
                            if generated.error is None && generated.stack.len() > 0 {
                                let top = generated.stack.last();
                                let done = Step { state: generated.state, error: None };
                                lemma_then_emit(state, done, LOAD, top);
                                lemma_then_emit(
                                    state,
                                    done.then_emit(LOAD, top),
                                    STORE,
                                    state.entry_for(value, TableEntryType::Variable).location,
                                );
                            }
                        },
                    }
                }
            }
        },
        Command::End => {
            lemma_emit_grows(state, HALT, 0);
        },
    }
}

/// One token of code generation enters no line.
pub proof fn lemma_read_adds_no_line(before: Codegen, token: Seq<char>)
    requires
        before.error is None,
    ensures
        before.state.adds_no_line(before.read(token).state),
{
    match symbol(token) {
        Some((value, entry_type)) => {
            let after = before.state.intern_checked(value, entry_type).state;
            assert(after.symbol_table == before.state.symbol_table || after.symbol_table
                == before.state.symbol_table.push(before.state.entry_for(value, entry_type)));
        },
        None => {
            assert(before.read(token).state.symbol_table == before.state.symbol_table);
        },
    }
}

/// Code generation for an expression enters no line.
pub proof fn lemma_generate_adds_no_line(start: CompilerState, tokens: Seq<Seq<char>>, n: nat)
    requires
        start.wf(),
    ensures
        start.adds_no_line(start.generate(tokens, n).state),
    decreases n,
{
    if n > 0 {
        lemma_generate_adds_no_line(start, tokens, (n - 1) as nat);
        lemma_generate_follows(start, tokens, (n - 1) as nat);
        let before = start.generate(tokens, (n - 1) as nat);
        if before.error is None {
            lemma_read_follows(before, tokens[n - 1]);
            lemma_read_adds_no_line(before, tokens[n - 1]);
            lemma_adds_no_line_transitive(start, before.state, before.read(tokens[n - 1]).state);
        }
    }
}

/// The code of a comparison leaves the symbol table as it is.
pub proof fn lemma_compare_keeps_table(
    state: CompilerState,
    comparison: Comparison,
    left: u32,
    right: u32,
    target: i32,
)
    ensures
        state.compare(comparison, left, right, target).state.symbol_table == state.symbol_table,
{
}

/// No statement enters a line: what a statement adds to the symbol table are
/// variables and constants.
pub proof fn lemma_run_adds_no_line(state: CompilerState, command: Command, args: Seq<Seq<char>>)
    requires
        state.wf(),
    ensures
        state.adds_no_line(state.run(command, args).state),
{
    let table = state.symbol_table;
    match command {
        Command::Rem => {},
        Command::Input => {
            if args.len() == 1 && symbol(args[0]) is Some {
                let value = symbol(args[0])->Some_0.0;
                let entry = state.entry_for(value, TableEntryType::Variable);
                let after = state.run(command, args).state.symbol_table;
                assert(after == table || after == table.push(entry));
            }
        },
        Command::Print => {
            if args.len() == 1 && symbol(args[0]) is Some {
                let (value, entry_type) = symbol(args[0])->Some_0;
                let entry = state.entry_for(value, entry_type);
                let after = state.run(command, args).state.symbol_table;
                assert(after == table || after == table.push(entry));
            }
        },
        Command::Goto => {
            assert(state.run(command, args).state.symbol_table == table);
        },
        Command::If => {
            if args.len() == 5 && symbol(args[0]) is Some && symbol(args[2]) is Some && symbol(
                args[4],
            ) is Some {
                let left = symbol(args[0])->Some_0;
                let right = symbol(args[2])->Some_0;
                let target = symbol(args[4])->Some_0.0;
                let first = state.intern_checked(left.0, left.1);
                let second = first.state.intern_checked(right.0, right.1);
                lemma_intern_follows(state, left.0, left.1);
                lemma_intern_follows(first.state, right.0, right.1);
                assert(first.state.symbol_table == table || first.state.symbol_table == table.push(
                    state.entry_for(left.0, left.1),
                ));
                assert(second.state.symbol_table == first.state.symbol_table
                    || second.state.symbol_table == first.state.symbol_table.push(
                    first.state.entry_for(right.0, right.1),
                ));
                assert(state.adds_no_line(first.state));
                assert(first.state.adds_no_line(second.state));
                lemma_adds_no_line_transitive(state, first.state, second.state);
                if first.error is None && second.error is None {
                    match comparison_named(args[1]) {
                        None => {},
                        Some(comparison) => {
                            lemma_compare_keeps_table(
                                second.state,
                                comparison,
                                state.entry_for(left.0, left.1).location,
                                first.state.entry_for(right.0, right.1).location,
                                target,
                            );
                        },
                    }
                }
            }
        },
        Command::Let => {
            if args.len() >= 3 && symbol(args[0]) is Some {
                let value = symbol(args[0])->Some_0.0;
                lemma_intern_follows(state, value, TableEntryType::Variable);
                let variable = state.intern_checked(value, TableEntryType::Variable);
                assert(variable.state.symbol_table == table || variable.state.symbol_table
                    == table.push(state.entry_for(value, TableEntryType::Variable)));
                assert(state.adds_no_line(variable.state));
                if variable.error is None {
                    match postfix(args.skip(2)) {
                        Err(error) => {},
                        Ok(tokens) => {
                            lemma_generate_follows(variable.state, tokens, tokens.len());
                            lemma_generate_adds_no_line(variable.state, tokens, tokens.len());
                            let generated = variable.state.generate(tokens, tokens.len());
                            lemma_adds_no_line_transitive(state, variable.state, generated.state);
                            assert(state.run(command, args).state.symbol_table
                                == generated.state.symbol_table);
                        },
                    }
                }
            }
        },
        Command::End => {
            assert(state.run(command, args).state.symbol_table == table);
        },
    }
}

/// A source line is a step from the state before it. If it succeeds, the line is
/// entered at the address where its code starts, and code and data have not met.
pub proof fn lemma_statement_follows(state: CompilerState, line: Seq<char>, position: usize)
    requires
        state.wf(),
        !state.exhausted(),
    ensures
        state.statement(line, position).follows(state),
        state.statement(line, position).error is None ==> {
            &&& !state.statement(line, position).state.exhausted()
            &&& pieces(line).len() >= 2
            &&& line_number(pieces(line)[0]) is Some
            &&& lookup(
                state.symbol_table,
                line_number(pieces(line)[0])->Some_0,
                TableEntryType::LineNumber,
            ) is None
            &&& lookup(
                state.statement(line, position).state.symbol_table,
                line_number(pieces(line)[0])->Some_0,
                TableEntryType::LineNumber,
            ) == Some(
                TableEntry {
                    symbol: line_number(pieces(line)[0])->Some_0,
                    entry_type: TableEntryType::LineNumber,
                    location: state.instruction_counter,
                },
            )
        },
{
    lemma_grows_reflexive(state);
    let tokens = pieces(line);
    if tokens.len() >= 2 && line_number(tokens[0]) is Some {
        let number = line_number(tokens[0])->Some_0;
        if lookup(state.symbol_table, number, TableEntryType::LineNumber) is None {
            let entry = TableEntry {
                symbol: number,
                entry_type: TableEntryType::LineNumber,
                location: state.instruction_counter,
            };
            let entered = state.enter_line(number);
            super::symbol_table::lemma_distinct_push(state.symbol_table, entry);
            assert(entered.symbol_table.take(state.symbol_table.len() as int)
                =~= state.symbol_table);
            assert(entered.symbol_table.drop_last() =~= state.symbol_table);
            assert(entered.wf());
            assert(state.grows_to(entered));
            assert(lookup(entered.symbol_table, number, TableEntryType::LineNumber) == Some(entry));
            match command_named(uppercase(tokens[1])) {
                None => {},
                Some(command) => {
                    lemma_run_follows(entered, command, tokens.skip(2));
                    let ran = entered.run(command, tokens.skip(2));
                    lemma_grows_transitive(state, entered, ran.state);
                    let n = entered.symbol_table.len() as int;
                    assert(ran.state.symbol_table =~= entered.symbol_table
                        + ran.state.symbol_table.skip(n)) by {
                        assert(ran.state.symbol_table.take(n) == entered.symbol_table);
                    }
                    lemma_lookup_extends(
                        entered.symbol_table,
                        ran.state.symbol_table.skip(n),
                        number,
                        TableEntryType::LineNumber,
                    );
                },
            }
        }
    }
}

/// The first pass keeps what it has emitted: the state after `n` lines grows to the
/// state after `m >= n` lines. Lines that succeeded leave code and data apart, and
/// where the pass has succeeded so far, it had succeeded before.
pub proof fn lemma_first_pass_grows(start: CompilerState, lines: Seq<Seq<char>>, n: nat, m: nat)
    requires
        start.wf(),
        !start.exhausted(),
        n <= m,
    ensures
        start.first_pass(lines, m).follows(start),
        start.first_pass(lines, n).state.grows_to(start.first_pass(lines, m).state),
        start.first_pass(lines, m).error is None ==> !start.first_pass(lines, m).state.exhausted()
            && start.first_pass(lines, n).error is None,
    decreases m,
{
    lemma_grows_reflexive(start);
    lemma_grows_reflexive(start.first_pass(lines, m).state);
    if m > 0 {
        let before = start.first_pass(lines, (m - 1) as nat);
        if n < m {
            lemma_first_pass_grows(start, lines, n, (m - 1) as nat);
        } else {
            lemma_first_pass_grows(start, lines, (m - 1) as nat, (m - 1) as nat);
        }
        if before.error is None {
            lemma_statement_follows(before.state, lines[m - 1], m as usize);
            let after = before.state.statement(lines[m - 1], m as usize);
            lemma_grows_transitive(start, before.state, after.state);
            if n < m {
                lemma_grows_transitive(
                    start.first_pass(lines, n).state,
                    before.state,
                    after.state,
                );
            }
        }
    }
}

/// A program that drives the data counter to meet or pass the instruction counter
/// is refused: if the counters have met after `n` lines, compilation fails, with
/// the error of want of memory unless a syntax error came first, and there is no
/// memory image.
pub proof fn lemma_exhaustion(start: CompilerState, lines: Seq<Seq<char>>, n: nat)
    requires
        start.wf(),
        !start.exhausted(),
        n <= lines.len(),
        start.first_pass(lines, n).state.exhausted(),
    ensures
        start.compiled(lines) is Err,
        start.compiled(lines)->Err_0 == memory_limit() || start.compiled(lines)->Err_0.kind
            == ErrorKind::Syntax,
{
    lemma_first_pass_grows(start, lines, n, n);
    lemma_first_pass_error_stays(start, lines, n, lines.len());
}

/// A statement that itself succeeds but leaves code and data met fails the line
/// for want of memory.
pub proof fn lemma_statement_exhaustion(state: CompilerState, line: Seq<char>, position: usize)
    requires
        state.wf(),
        !state.exhausted(),
        state.statement(line, position).state.exhausted(),
    ensures
        state.statement(line, position).error is Some,
        state.statement(line, position).error->Some_0.kind != ErrorKind::Syntax
            ==> state.statement(line, position).error == Some(memory_limit()),
{
    lemma_statement_follows(state, line, position);
}

/// Want of memory is reported only where code and data have met: a line that
/// ends in that error leaves the data counter at or below the instruction counter.
pub proof fn lemma_memory_limit_means_met(state: CompilerState, line: Seq<char>, position: usize)
    requires
        state.wf(),
        !state.exhausted(),
        state.statement(line, position).error == Some(memory_limit()),
    ensures
        state.statement(line, position).state.exhausted(),
{
    lemma_statement_follows(state, line, position);
}

/// A compilation that fails for want of memory has driven the data counter to
/// meet or pass the instruction counter by the end of its first pass.
pub proof fn lemma_resource_error_means_met(start: CompilerState, lines: Seq<Seq<char>>)
    requires
        start.wf(),
        !start.exhausted(),
        start.compiled(lines) is Err,
        start.compiled(lines)->Err_0.kind == ErrorKind::Resource,
    ensures
        start.compiled(lines) == Err::<Seq<i32>, ErrorView>(memory_limit()),
        start.first_pass(lines, lines.len()).state.exhausted(),
{
    lemma_first_pass_grows(start, lines, lines.len(), lines.len());
    lemma_first_dangling(start.first_pass(lines, lines.len()).state, MEMORY as nat);
}

/// The second pass resolves every branch: where it succeeds, the line of each
/// branch exists and the branch holds the line's address.
pub proof fn lemma_link_resolves(state: CompilerState, i: int, operation_code: u32, target: i32)
    requires
        state.wf(),
        operation_code < INSTRUCTIONS_SEP,
        state.branches_to(i, operation_code, target),
        state.link() is Ok,
    ensures
        lookup(state.symbol_table, target, TableEntryType::LineNumber) is Some,
        state.link()->Ok_0[i] == encode(
            operation_code as int,
            lookup(state.symbol_table, target, TableEntryType::LineNumber)->Some_0.location as int,
        ),
{
    lemma_first_dangling(state, MEMORY as nat);
    assert(!state.dangling(i));
    lemma_lookup(state.symbol_table, target, TableEntryType::LineNumber);
}

/// Forward references are resolved like backward ones. A branch to a line is
/// emitted in any state, whether the line is known there or not; compilation goes
/// on to any later state; the second pass succeeds. Then the line exists, and the
/// branch holds the address at which the line was entered.
pub proof fn lemma_forward_reference(
    state: CompilerState,
    later: CompilerState,
    operation_code: u32,
    target: i32,
)
    requires
        state.wf(),
        operation_code < INSTRUCTIONS_SEP,
        state.branch(operation_code, target).error is None,
        later.wf(),
        state.branch(operation_code, target).state.grows_to(later),
        later.link() is Ok,
    ensures
        lookup(later.symbol_table, target, TableEntryType::LineNumber) is Some,
        later.link()->Ok_0[state.instruction_counter as int] == encode(
            operation_code as int,
            lookup(later.symbol_table, target, TableEntryType::LineNumber)->Some_0.location as int,
        ),
{
    lemma_branch_grows(state, operation_code, target);
    lemma_branch_stays(
        state.branch(operation_code, target).state,
        later,
        state.instruction_counter as int,
        operation_code,
        target,
    );
    lemma_link_resolves(later, state.instruction_counter as int, operation_code, target);
}

/// In a first pass that succeeds, every line is entered at the address where its
/// code starts, and the entry is there at the end of the pass.
pub proof fn lemma_line_is_entered(start: CompilerState, lines: Seq<Seq<char>>, k: int)
    requires
        start.wf(),
        !start.exhausted(),
        0 <= k < lines.len(),
        start.first_pass(lines, lines.len()).error is None,
    ensures
        line_number(pieces(lines[k])[0]) is Some,
        lookup(
            start.first_pass(lines, lines.len()).state.symbol_table,
            line_number(pieces(lines[k])[0])->Some_0,
            TableEntryType::LineNumber,
        ) == Some(
            TableEntry {
                symbol: line_number(pieces(lines[k])[0])->Some_0,
                entry_type: TableEntryType::LineNumber,
                location: start.first_pass(lines, k as nat).state.instruction_counter,
            },
        ),
{
    let all = lines.len();
    let last = start.first_pass(lines, all).state;
    lemma_first_pass_grows(start, lines, k as nat, all);
    lemma_first_pass_grows(start, lines, (k + 1) as nat, all);
    lemma_first_pass_grows(start, lines, k as nat, k as nat);
    let before = start.first_pass(lines, k as nat).state;
    let after = start.first_pass(lines, (k + 1) as nat).state;
    lemma_statement_follows(before, lines[k], (k + 1) as usize);
    let n = after.symbol_table.len() as int;
    assert(last.symbol_table =~= after.symbol_table + last.symbol_table.skip(n)) by {
        assert(last.symbol_table.take(n) == after.symbol_table);
    }
    lemma_lookup_extends(
        after.symbol_table,
        last.symbol_table.skip(n),
        line_number(pieces(lines[k])[0])->Some_0,
        TableEntryType::LineNumber,
    );
}

/// In a program that compiles, a word that is a branch to a line after some line
/// of the first pass holds, in the memory image, the address of that line.
pub proof fn lemma_branch_is_resolved(
    start: CompilerState,
    lines: Seq<Seq<char>>,
    n: nat,
    at: int,
    operation_code: u32,
    target: i32,
)
    requires
        start.wf(),
        !start.exhausted(),
        n <= lines.len(),
        operation_code < INSTRUCTIONS_SEP,
        start.compiled(lines) is Ok,
        start.first_pass(lines, n).state.branches_to(at, operation_code, target),
    ensures
        lookup(
            start.first_pass(lines, lines.len()).state.symbol_table,
            target,
            TableEntryType::LineNumber,
        ) is Some,
        start.compiled(lines)->Ok_0[at] == encode(
            operation_code as int,
            lookup(
                start.first_pass(lines, lines.len()).state.symbol_table,
                target,
                TableEntryType::LineNumber,
            )->Some_0.location as int,
        ),
{
    let all = lines.len();
    let last = start.first_pass(lines, all).state;
    lemma_first_pass_grows(start, lines, n, all);
    lemma_branch_stays(start.first_pass(lines, n).state, last, at, operation_code, target);
    lemma_link_resolves(last, at, operation_code, target);
}

/// A `GOTO` line that succeeds leaves, where its code starts, a branch to its target.
pub proof fn lemma_goto_statement(state: CompilerState, line: Seq<char>, position: usize)
    requires
        state.wf(),
        !state.exhausted(),
        state.statement(line, position).error is None,
        command_named(uppercase(pieces(line)[1])) == Some(Command::Goto),
    ensures
        symbol(pieces(line)[2]) is Some,
        state.statement(line, position).state.branches_to(
            state.instruction_counter as int,
            BRANCH,
            symbol(pieces(line)[2])->Some_0.0,
        ),
{
    let tokens = pieces(line);
    let number = line_number(tokens[0])->Some_0;
    let entered = state.enter_line(number);
    let entry = TableEntry {
        symbol: number,
        entry_type: TableEntryType::LineNumber,
        location: state.instruction_counter,
    };
    super::symbol_table::lemma_distinct_push(state.symbol_table, entry);
    assert(entered.wf());
    assert(tokens.skip(2)[0] == tokens[2]);
    lemma_branch_grows(entered, BRANCH, symbol(tokens[2])->Some_0.0);
}

/// In a program that compiles, a `GOTO` branches to the first instruction of the
/// line it names, wherever that line stands: before it, after it, or the `GOTO`'s
/// own line. Line `j` of the source (counted from 0) is a `GOTO` whose target is the
/// number of line `k`. Then the word at the address where line `j` starts is a
/// branch to the address where line `k` starts.
pub proof fn lemma_goto_reaches_line(start: CompilerState, lines: Seq<Seq<char>>, j: int, k: int)
    requires
        start.wf(),
        !start.exhausted(),
        start.compiled(lines) is Ok,
        0 <= j < lines.len(),
        0 <= k < lines.len(),
        command_named(uppercase(pieces(lines[j])[1])) == Some(Command::Goto),
        symbol(pieces(lines[j])[2]) is Some,
        line_number(pieces(lines[k])[0]) is Some,
        line_number(pieces(lines[k])[0])->Some_0 == symbol(pieces(lines[j])[2])->Some_0.0,
    ensures
        start.compiled(lines)->Ok_0[start.first_pass(lines, j as nat).state.instruction_counter as int]
            == encode(
            BRANCH as int,
            start.first_pass(lines, k as nat).state.instruction_counter as int,
        ),
{
    let before = start.first_pass(lines, j as nat).state;
    let target = symbol(pieces(lines[j])[2])->Some_0.0;
    lemma_first_pass_grows(start, lines, j as nat, lines.len());
    lemma_first_pass_grows(start, lines, (j + 1) as nat, lines.len());
    lemma_first_pass_grows(start, lines, j as nat, j as nat);
    lemma_goto_statement(before, lines[j], (j + 1) as usize);
    lemma_branch_is_resolved(
        start,
        lines,
        (j + 1) as nat,
        before.instruction_counter as int,
        BRANCH,
        target,
    );
    lemma_line_is_entered(start, lines, k);
}

/// The opcode of the branch that every comparison emits as its third instruction.
pub open spec fn first_branch(comparison: Comparison) -> u32 {
    if comparison == Comparison::Equal {
        BRANCH_ZERO
    } else {
        BRANCH_NEG
    }
}

/// Whether a comparison emits a second branch, on zero, as its fourth instruction.
pub open spec fn has_second_branch(comparison: Comparison) -> bool {
    comparison == Comparison::LessOrEqual || comparison == Comparison::GreaterOrEqual
}

/// The code of a comparison holds its branches where they are expected: the third
/// word is a branch to the line, and so is the fourth where there are two.
pub proof fn lemma_compare_branches(
    state: CompilerState,
    comparison: Comparison,
    left: u32,
    right: u32,
    target: i32,
)
    requires
        state.wf(),
        left < MEMORY,
        right < MEMORY,
        state.compare(comparison, left, right, target).error is None,
    ensures
        state.compare(comparison, left, right, target).state.branches_to(
            state.instruction_counter + 2,
            first_branch(comparison),
            target,
        ),
        has_second_branch(comparison) ==> state.compare(
            comparison,
            left,
            right,
            target,
        ).state.branches_to(state.instruction_counter + 3, BRANCH_ZERO, target),
{
    let (first, second) = match comparison {
        Comparison::Equal | Comparison::Less | Comparison::LessOrEqual => (left, right),
        Comparison::Greater | Comparison::GreaterOrEqual => (right, left),
    };
    lemma_emit_grows(state, LOAD, first);
    let a = state.emit_checked(LOAD, first);
    lemma_then_emit(state, a, SUBTRACT, second);
    let b = a.then_emit(SUBTRACT, second);
    let operation = first_branch(comparison);
    lemma_branch_grows(b.state, operation, target);
    let c = b.state.branch(operation, target);
    if has_second_branch(comparison) {
        lemma_branch_grows(c.state, BRANCH_ZERO, target);
        lemma_branch_stays(
            c.state,
            c.state.branch(BRANCH_ZERO, target).state,
            state.instruction_counter + 2,
            operation,
            target,
        );
    }
}

/// An `IF` line that succeeds leaves a branch to its target in the third word of
/// its code, and in the fourth where the comparison takes two branches.
pub proof fn lemma_if_statement(state: CompilerState, line: Seq<char>, position: usize)
    requires
        state.wf(),
        !state.exhausted(),
        state.statement(line, position).error is None,
        command_named(uppercase(pieces(line)[1])) == Some(Command::If),
    ensures
        symbol(pieces(line)[6]) is Some,
        comparison_named(pieces(line)[3]) is Some,
        state.statement(line, position).state.branches_to(
            state.instruction_counter + 2,
            first_branch(comparison_named(pieces(line)[3])->Some_0),
            symbol(pieces(line)[6])->Some_0.0,
        ),
        has_second_branch(comparison_named(pieces(line)[3])->Some_0) ==> state.statement(
            line,
            position,
        ).state.branches_to(
            state.instruction_counter + 3,
            BRANCH_ZERO,
            symbol(pieces(line)[6])->Some_0.0,
        ),
{
    let tokens = pieces(line);
    let args = tokens.skip(2);
    let number = line_number(tokens[0])->Some_0;
    let entered = state.enter_line(number);
    let entry = TableEntry {
        symbol: number,
        entry_type: TableEntryType::LineNumber,
        location: state.instruction_counter,
    };
    super::symbol_table::lemma_distinct_push(state.symbol_table, entry);
    assert(entered.wf());
    assert(state.statement(line, position).state == entered.branch_if(args).state);
    assert(entered.branch_if(args).error is None);
    assert(args.len() == 5);
    assert(args[0] == tokens[2] && args[1] == tokens[3] && args[2] == tokens[4] && args[4]
        == tokens[6]);
    let left = symbol(args[0])->Some_0;
    let right = symbol(args[2])->Some_0;
    let target = symbol(args[4])->Some_0.0;
    lemma_intern_follows(entered, left.0, left.1);
    let first = entered.intern_checked(left.0, left.1);
    lemma_intern_follows(first.state, right.0, right.1);
    let second = first.state.intern_checked(right.0, right.1);
    let l = entered.entry_for(left.0, left.1).location;
    let r = first.state.entry_for(right.0, right.1).location;
    let comparison = comparison_named(args[1])->Some_0;
    lemma_compare_branches(second.state, comparison, l, r, target);
}

/// In a program that compiles, an `IF` branches to the first instruction of the
/// line it names, wherever that line stands. Line `j` of the source (counted from
/// 0) is an `IF` with comparison `comparison` whose target is the number of line
/// `k`. Then the third word of line `j` is a branch to the address where line `k`
/// starts, and so is the fourth where the comparison takes two branches.
pub proof fn lemma_if_reaches_line(
    start: CompilerState,
    lines: Seq<Seq<char>>,
    j: int,
    k: int,
    comparison: Comparison,
)
    requires
        start.wf(),
        !start.exhausted(),
        start.compiled(lines) is Ok,
        0 <= j < lines.len(),
        0 <= k < lines.len(),
        command_named(uppercase(pieces(lines[j])[1])) == Some(Command::If),
        comparison_named(pieces(lines[j])[3]) == Some(comparison),
        symbol(pieces(lines[j])[6]) is Some,
        line_number(pieces(lines[k])[0]) is Some,
        line_number(pieces(lines[k])[0])->Some_0 == symbol(pieces(lines[j])[6])->Some_0.0,
    ensures
        start.compiled(lines)->Ok_0[start.first_pass(lines, j as nat).state.instruction_counter + 2]
            == encode(
            first_branch(comparison) as int,
            start.first_pass(lines, k as nat).state.instruction_counter as int,
        ),
        has_second_branch(comparison) ==> start.compiled(lines)->Ok_0[start.first_pass(
            lines,
            j as nat,
        ).state.instruction_counter + 3] == encode(
            BRANCH_ZERO as int,
            start.first_pass(lines, k as nat).state.instruction_counter as int,
        ),
{
    let before = start.first_pass(lines, j as nat).state;
    let target = symbol(pieces(lines[j])[6])->Some_0.0;
    lemma_first_pass_grows(start, lines, j as nat, lines.len());
    lemma_first_pass_grows(start, lines, (j + 1) as nat, lines.len());
    lemma_first_pass_grows(start, lines, j as nat, j as nat);
    lemma_if_statement(before, lines[j], (j + 1) as usize);
    lemma_branch_is_resolved(
        start,
        lines,
        (j + 1) as nat,
        before.instruction_counter + 2,
        first_branch(comparison),
        target,
    );
    if has_second_branch(comparison) {
        lemma_branch_is_resolved(
            start,
            lines,
            (j + 1) as nat,
            before.instruction_counter + 3,
            BRANCH_ZERO,
            target,
        );
    }
    lemma_line_is_entered(start, lines, k);
}

/// Whether `target` is the number of one of the first `n` lines.
pub open spec fn is_line(lines: Seq<Seq<char>>, n: nat, target: i32) -> bool {
    exists|k: int| 0 <= k < n && line_number(pieces(#[trigger] lines[k])[0]) == Some(target)
}

/// A line that a source line leaves in the symbol table was there before, or is
/// that source line's own number.
pub proof fn lemma_statement_lines(
    state: CompilerState,
    line: Seq<char>,
    position: usize,
    target: i32,
)
    requires
        state.wf(),
        !state.exhausted(),
        state.statement(line, position).error is None,
        lookup(
            state.statement(line, position).state.symbol_table,
            target,
            TableEntryType::LineNumber,
        ) is Some,
    ensures
        lookup(state.symbol_table, target, TableEntryType::LineNumber) is Some || line_number(
            pieces(line)[0],
        ) == Some(target),
{
    lemma_statement_follows(state, line, position);
    let tokens = pieces(line);
    let number = line_number(tokens[0])->Some_0;
    let entered = state.enter_line(number);
    let entry = TableEntry {
        symbol: number,
        entry_type: TableEntryType::LineNumber,
        location: state.instruction_counter,
    };
    super::symbol_table::lemma_distinct_push(state.symbol_table, entry);
    assert(entered.wf());
    let command = command_named(uppercase(tokens[1]))->Some_0;
    lemma_run_follows(entered, command, tokens.skip(2));
    lemma_run_adds_no_line(entered, command, tokens.skip(2));
    let after = state.statement(line, position).state;
    assert(after == entered.run(command, tokens.skip(2)).state);
    lemma_lookup(after.symbol_table, target, TableEntryType::LineNumber);
    lemma_lookup(state.symbol_table, target, TableEntryType::LineNumber);
    let found = lookup(after.symbol_table, target, TableEntryType::LineNumber)->Some_0;
    let at = choose|i: int| 0 <= i < after.symbol_table.len() && after.symbol_table[i] == found;
    let n = entered.symbol_table.len() as int;
    assert(after.symbol_table.take(n) == entered.symbol_table);
    if at < n {
        assert(after.symbol_table.take(n)[at] == after.symbol_table[at]);
        if at < n - 1 {
            assert(entered.symbol_table[at] == state.symbol_table[at]);
        }
    }
}

/// The lines in the symbol table after a first pass that succeeded are the lines
/// that were there before and the numbers of the source lines, and no others.
pub proof fn lemma_first_pass_lines(
    start: CompilerState,
    lines: Seq<Seq<char>>,
    n: nat,
    target: i32,
)
    requires
        start.wf(),
        !start.exhausted(),
        n <= lines.len(),
        start.first_pass(lines, n).error is None,
        lookup(start.first_pass(lines, n).state.symbol_table, target, TableEntryType::LineNumber)
            is Some,
    ensures
        lookup(start.symbol_table, target, TableEntryType::LineNumber) is Some || is_line(
            lines,
            n,
            target,
        ),
    decreases n,
{
    if n > 0 {
        let before = start.first_pass(lines, (n - 1) as nat);
        lemma_first_pass_grows(start, lines, (n - 1) as nat, (n - 1) as nat);
        lemma_statement_lines(before.state, lines[n - 1], n as usize, target);
        if lookup(before.state.symbol_table, target, TableEntryType::LineNumber) is Some {
            lemma_first_pass_lines(start, lines, (n - 1) as nat, target);
            if is_line(lines, (n - 1) as nat, target) {
                let k = choose|k: int|
                    0 <= k < n - 1 && line_number(pieces(#[trigger] lines[k])[0]) == Some(target);
                assert(0 <= k < n && line_number(pieces(lines[k])[0]) == Some(target));
            }
        } else {
            assert(line_number(pieces(lines[n - 1])[0]) == Some(target));
        }
    }
}

/// A branch to a line that the program does not have ends in the link error. The
/// first pass succeeds and leaves a branch to `target` in the code; `target` was
/// no line before, and is the number of no line of the source. Then there is no
/// memory image, and the error is a link error.
pub proof fn lemma_branch_to_missing_line(
    start: CompilerState,
    lines: Seq<Seq<char>>,
    n: nat,
    at: int,
    operation_code: u32,
    target: i32,
)
    requires
        start.wf(),
        !start.exhausted(),
        n <= lines.len(),
        start.first_pass(lines, lines.len()).error is None,
        start.first_pass(lines, n).state.branches_to(at, operation_code, target),
        lookup(start.symbol_table, target, TableEntryType::LineNumber) is None,
        !is_line(lines, lines.len(), target),
    ensures
        start.compiled(lines) is Err,
        start.compiled(lines)->Err_0.kind == ErrorKind::Link,
{
    let last = start.first_pass(lines, lines.len()).state;
    lemma_first_pass_grows(start, lines, n, lines.len());
    lemma_branch_stays(start.first_pass(lines, n).state, last, at, operation_code, target);
    if lookup(last.symbol_table, target, TableEntryType::LineNumber) is Some {
        lemma_first_pass_lines(start, lines, lines.len(), target);
    }
    assert(last.dangling(at));
    lemma_first_dangling(last, MEMORY as nat);
}

/// A `GOTO` to a line that the program does not have ends in the link error: line
/// `j` of the source (counted from 0) is a `GOTO` whose target is the number of no
/// line, and the first pass succeeds. Then compilation fails with a link error.
pub proof fn lemma_goto_to_missing_line(start: CompilerState, lines: Seq<Seq<char>>, j: int)
    requires
        start.wf(),
        !start.exhausted(),
        0 <= j < lines.len(),
        start.first_pass(lines, lines.len()).error is None,
        command_named(uppercase(pieces(lines[j])[1])) == Some(Command::Goto),
        symbol(pieces(lines[j])[2]) is Some,
        lookup(
            start.symbol_table,
            symbol(pieces(lines[j])[2])->Some_0.0,
            TableEntryType::LineNumber,
        ) is None,
        !is_line(lines, lines.len(), symbol(pieces(lines[j])[2])->Some_0.0),
    ensures
        start.compiled(lines) is Err,
        start.compiled(lines)->Err_0.kind == ErrorKind::Link,
{
    let before = start.first_pass(lines, j as nat).state;
    lemma_first_pass_grows(start, lines, j as nat, lines.len());
    lemma_first_pass_grows(start, lines, (j + 1) as nat, lines.len());
    lemma_first_pass_grows(start, lines, j as nat, j as nat);
    lemma_goto_statement(before, lines[j], (j + 1) as usize);
    lemma_branch_to_missing_line(
        start,
        lines,
        (j + 1) as nat,
        before.instruction_counter as int,
        BRANCH,
        symbol(pieces(lines[j])[2])->Some_0.0,
    );
}

/// An `IF` whose target is a line that the program does not have ends in the link
/// error: line `j` of the source (counted from 0) is an `IF` whose target is the
/// number of no line, and the first pass succeeds. Then compilation fails with a
/// link error.
pub proof fn lemma_if_to_missing_line(start: CompilerState, lines: Seq<Seq<char>>, j: int)
    requires
        start.wf(),
        !start.exhausted(),
        0 <= j < lines.len(),
        start.first_pass(lines, lines.len()).error is None,
        command_named(uppercase(pieces(lines[j])[1])) == Some(Command::If),
        symbol(pieces(lines[j])[6]) is Some,
        lookup(
            start.symbol_table,
            symbol(pieces(lines[j])[6])->Some_0.0,
            TableEntryType::LineNumber,
        ) is None,
        !is_line(lines, lines.len(), symbol(pieces(lines[j])[6])->Some_0.0),
    ensures
        start.compiled(lines) is Err,
        start.compiled(lines)->Err_0.kind == ErrorKind::Link,
{
    let before = start.first_pass(lines, j as nat).state;
    lemma_first_pass_grows(start, lines, j as nat, lines.len());
    lemma_first_pass_grows(start, lines, (j + 1) as nat, lines.len());
    lemma_first_pass_grows(start, lines, j as nat, j as nat);
    lemma_if_statement(before, lines[j], (j + 1) as usize);
    lemma_branch_to_missing_line(
        start,
        lines,
        (j + 1) as nat,
        before.instruction_counter + 2,
        first_branch(comparison_named(pieces(lines[j])[3])->Some_0),
        symbol(pieces(lines[j])[6])->Some_0.0,
    );
}

/// The line that a source line names as its branch target, if it is a `GOTO` or an
/// `IF` with the right number of arguments and a target that reads as a symbol.
pub open spec fn target_of(line: Seq<char>) -> Option<i32> {
    let tokens = pieces(line);
    if tokens.len() < 2 {
        None
    } else {
        match command_named(uppercase(tokens[1])) {
            Some(Command::Goto) => if tokens.len() == 3 && symbol(tokens[2]) is Some {
                Some(symbol(tokens[2])->Some_0.0)
            } else {
                None
            },
            Some(Command::If) => if tokens.len() == 7 && symbol(tokens[6]) is Some {
                Some(symbol(tokens[6])->Some_0.0)
            } else {
                None
            },
            _ => None,
        }
    }
}

impl CompilerState {
    /// Every flag names a line for which `known` holds.
    pub open spec fn flags_within(self, known: spec_fn(i32) -> bool) -> bool {
        forall|i: int|
            0 <= i < self.flags.len() && (#[trigger] self.flags[i]) is Some ==> known(
                self.flags[i]->Some_0,
            )
    }
}

/// Code generation for an expression sets no flag.
pub proof fn lemma_generate_keeps_flags(start: CompilerState, tokens: Seq<Seq<char>>, n: nat)
    ensures
        start.generate(tokens, n).state.flags == start.flags,
    decreases n,
{
    if n > 0 {
        lemma_generate_keeps_flags(start, tokens, (n - 1) as nat);
    }
}

/// A statement flags nothing but branches to its own target.
pub proof fn lemma_run_flags(
    state: CompilerState,
    command: Command,
    args: Seq<Seq<char>>,
    known: spec_fn(i32) -> bool,
)
    requires
        state.wf(),
        state.flags_within(known),
        command == Command::Goto && args.len() == 1 && symbol(args[0]) is Some ==> known(
            symbol(args[0])->Some_0.0,
        ),
        command == Command::If && args.len() == 5 && symbol(args[4]) is Some ==> known(
            symbol(args[4])->Some_0.0,
        ),
    ensures
        state.run(command, args).state.flags_within(known),
{
    match command {
        Command::Let => {
            if args.len() >= 3 && symbol(args[0]) is Some {
                let value = symbol(args[0])->Some_0.0;
                let variable = state.intern_checked(value, TableEntryType::Variable);
                match postfix(args.skip(2)) {
                    Err(error) => {},
                    Ok(tokens) => {
                        lemma_generate_keeps_flags(variable.state, tokens, tokens.len());
                    },
                }
                assert(state.run(command, args).state.flags == state.flags);
            }
        },
        Command::If => {
            if args.len() == 5 && symbol(args[0]) is Some && symbol(args[2]) is Some && symbol(
                args[4],
            ) is Some {
                let left = symbol(args[0])->Some_0;
                let right = symbol(args[2])->Some_0;
                let target = symbol(args[4])->Some_0.0;
                let first = state.intern_checked(left.0, left.1);
                let second = first.state.intern_checked(right.0, right.1);
                lemma_intern_follows(state, left.0, left.1);
                lemma_intern_follows(first.state, right.0, right.1);
                assert(second.state.flags == state.flags);
                if first.error is None && second.error is None {
                    match comparison_named(args[1]) {
                        None => {},
                        Some(comparison) => {
                            lemma_compare_flags(
                                second.state,
                                comparison,
                                state.entry_for(left.0, left.1).location,
                                first.state.entry_for(right.0, right.1).location,
                                target,
                                known,
                            );
                        },
                    }
                }
            }
        },
        Command::Goto => {
            if args.len() == 1 && symbol(args[0]) is Some && symbol(args[0])->Some_0.1
                == TableEntryType::Constant {
                lemma_branch_flags(state, BRANCH, symbol(args[0])->Some_0.0, known);
            }
        },
        _ => {},
    }
}

/// A branch flags nothing but its own target.
pub proof fn lemma_branch_flags(
    state: CompilerState,
    operation_code: u32,
    target: i32,
    known: spec_fn(i32) -> bool,
)
    requires
        state.wf(),
        state.flags_within(known),
        known(target),
    ensures
        state.branch(operation_code, target).state.flags_within(known),
{
    let after = state.branch(operation_code, target).state;
    assert forall|i: int| 0 <= i < after.flags.len() && (#[trigger] after.flags[i]) is Some implies known(
        after.flags[i]->Some_0,
    ) by {
        if i != state.instruction_counter {
            assert(after.flags[i] == state.flags[i]);
        }
    }
}

/// The code of a comparison flags nothing but its own target.
pub proof fn lemma_compare_flags(
    state: CompilerState,
    comparison: Comparison,
    left: u32,
    right: u32,
    target: i32,
    known: spec_fn(i32) -> bool,
)
    requires
        state.wf(),
        left < MEMORY,
        right < MEMORY,
        state.flags_within(known),
        known(target),
    ensures
        state.compare(comparison, left, right, target).state.flags_within(known),
{
    let (first, second) = match comparison {
        Comparison::Equal | Comparison::Less | Comparison::LessOrEqual => (left, right),
        Comparison::Greater | Comparison::GreaterOrEqual => (right, left),
    };
    lemma_emit_grows(state, LOAD, first);
    lemma_then_emit(state, state.emit_checked(LOAD, first), SUBTRACT, second);
    let b = state.emit_checked(LOAD, first).then_emit(SUBTRACT, second);
    assert(b.state.flags == state.flags);
    lemma_branch_flags(b.state, BRANCH_ZERO, target, known);
    lemma_branch_flags(b.state, BRANCH_NEG, target, known);
    lemma_branch_grows(b.state, BRANCH_NEG, target);
    lemma_branch_flags(b.state.branch(BRANCH_NEG, target).state, BRANCH_ZERO, target, known);
}

/// A source line flags nothing but branches to the target it names.
pub proof fn lemma_statement_flags(
    state: CompilerState,
    line: Seq<char>,
    position: usize,
    known: spec_fn(i32) -> bool,
)
    requires
        state.wf(),
        !state.exhausted(),
        state.flags_within(known),
        target_of(line) is Some ==> known(target_of(line)->Some_0),
    ensures
        state.statement(line, position).state.flags_within(known),
{
    let tokens = pieces(line);
    if tokens.len() >= 2 && line_number(tokens[0]) is Some && lookup(
        state.symbol_table,
        line_number(tokens[0])->Some_0,
        TableEntryType::LineNumber,
    ) is None {
        let number = line_number(tokens[0])->Some_0;
        let entered = state.enter_line(number);
        let entry = TableEntry {
            symbol: number,
            entry_type: TableEntryType::LineNumber,
            location: state.instruction_counter,
        };
        super::symbol_table::lemma_distinct_push(state.symbol_table, entry);
        assert(entered.wf());
        match command_named(uppercase(tokens[1])) {
            None => {},
            Some(command) => {
                let args = tokens.skip(2);
                if args.len() >= 1 {
                    assert(args[0] == tokens[2]);
                }
                if args.len() >= 5 {
                    assert(args[4] == tokens[6]);
                }
                lemma_run_flags(entered, command, args, known);
            },
        }
    }
}

/// The first pass flags nothing but branches to the targets that its lines name.
pub proof fn lemma_first_pass_flags(
    start: CompilerState,
    lines: Seq<Seq<char>>,
    n: nat,
    known: spec_fn(i32) -> bool,
)
    requires
        start.wf(),
        !start.exhausted(),
        n <= lines.len(),
        start.flags_within(known),
        forall|j: int|
            0 <= j < lines.len() && target_of(#[trigger] lines[j]) is Some ==> known(
                target_of(lines[j])->Some_0,
            ),
    ensures
        start.first_pass(lines, n).state.flags_within(known),
    decreases n,
{
    if n > 0 {
        lemma_first_pass_flags(start, lines, (n - 1) as nat, known);
        lemma_first_pass_grows(start, lines, (n - 1) as nat, (n - 1) as nat);
        let before = start.first_pass(lines, (n - 1) as nat);
        if before.error is None {
            assert(target_of(lines[n - 1]) is Some ==> known(target_of(lines[n - 1])->Some_0));
            lemma_statement_flags(before.state, lines[n - 1], n as usize, known);
        }
    }
}

/// Where every branch names a line of the source, there is no link error: the
/// first pass succeeds, no word was flagged before it, and the target of every
/// `GOTO` and every `IF` is the number of some line. Then the second pass succeeds,
/// and there is a memory image.
pub proof fn lemma_no_link_error(start: CompilerState, lines: Seq<Seq<char>>)
    requires
        start.wf(),
        !start.exhausted(),
        forall|i: int| 0 <= i < start.flags.len() ==> (#[trigger] start.flags[i]) is None,
        start.first_pass(lines, lines.len()).error is None,
        forall|j: int|
            0 <= j < lines.len() && target_of(#[trigger] lines[j]) is Some ==> is_line(
                lines,
                lines.len(),
                target_of(lines[j])->Some_0,
            ),
    ensures
        start.compiled(lines) is Ok,
{
    let last = start.first_pass(lines, lines.len()).state;
    let known = |t: i32| is_line(lines, lines.len(), t);
    lemma_first_pass_flags(start, lines, lines.len(), known);
    lemma_first_pass_grows(start, lines, lines.len(), lines.len());
    lemma_first_dangling(last, MEMORY as nat);
    if last.first_dangling(MEMORY as nat) is Some {
        let i = last.first_dangling(MEMORY as nat)->Some_0;
        let target = last.flags[i]->Some_0;
        assert(known(target));
        let k = choose|k: int|
            0 <= k < lines.len() && line_number(pieces(#[trigger] lines[k])[0]) == Some(target);
        lemma_line_is_entered(start, lines, k);
    }
}

} // verus!
