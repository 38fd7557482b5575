//! The statements of the language, one handler for each keyword.
//!
//! A handler checks its arguments, resolves its operands through the symbol
//! table and emits instructions. It stops at the first error.

use vstd::prelude::*;
use super::expression::{infix_to_postfix, is_char, postfix};
use super::table_entry::TableEntryType;
use super::utils::{read_symbol, symbol};
use super::{reports, Compiler, CompilerState, Step};
use crate::config::{
    ADD, BRANCH, BRANCH_NEG, BRANCH_ZERO, DIVIDE, HALT, LOAD, MEMORY, MULTIPLY, READ, STORE, SUBTRACT,
    WRITE,
};
use crate::text::{same_text, texts};
use crate::types::{error_of, ErrorKind, ErrorView, MyError};

verus! {

/// The statements of the language.
#[derive(Clone, Copy, Debug, PartialEq, Eq, Structural)]
pub enum Command {
    Rem,
    Input,
    Print,
    If,
    Goto,
    Let,
    End,
}

/// The comparisons of an `IF` statement.
#[derive(Clone, Copy, Debug, PartialEq, Eq, Structural)]
pub enum Comparison {
    Equal,
    Less,
    Greater,
    LessOrEqual,
    GreaterOrEqual,
}

/// The statement that a keyword in upper case names.
pub open spec fn command_named(keyword: Seq<char>) -> Option<Command> {
    if keyword == "REM"@ {
        Some(Command::Rem)
    } else if keyword == "INPUT"@ {
        Some(Command::Input)
    } else if keyword == "PRINT"@ {
        Some(Command::Print)
    } else if keyword == "IF"@ {
        Some(Command::If)
    } else if keyword == "GOTO"@ {
        Some(Command::Goto)
    } else if keyword == "LET"@ {
        Some(Command::Let)
    } else if keyword == "END"@ {
        Some(Command::End)
    } else {
        None
    }
}

/// The comparison that a token names.
pub open spec fn comparison_named(token: Seq<char>) -> Option<Comparison> {
    if token == seq!['=', '='] {
        Some(Comparison::Equal)
    } else if token == seq!['<'] {
        Some(Comparison::Less)
    } else if token == seq!['>'] {
        Some(Comparison::Greater)
    } else if token == seq!['<', '='] {
        Some(Comparison::LessOrEqual)
    } else if token == seq!['>', '='] {
        Some(Comparison::GreaterOrEqual)
    } else {
        None
    }
}

/// The opcode of an arithmetic operator.
pub open spec fn operator_code(token: Seq<char>) -> Option<u32> {
    if token == seq!['+'] {
        Some(ADD)
    } else if token == seq!['-'] {
        Some(SUBTRACT)
    } else if token == seq!['/'] {
        Some(DIVIDE)
    } else if token == seq!['*'] {
        Some(MULTIPLY)
    } else {
        None
    }
}

/// A syntax error with the given text.
pub open spec fn syntax(details: Seq<char>) -> ErrorView {
    error_of(ErrorKind::Syntax, details)
}

/// The code generator of a `LET` statement, part way through a postfix
/// expression: the compiler's state, the stack of the addresses that hold the
/// operands computed so far, and the error that stopped it, if one did.
pub struct Codegen {
    pub state: CompilerState,
    pub stack: Seq<u32>,
    pub error: Option<ErrorView>,
}

impl Codegen {
    /// One token of the postfix expression is read. An operand is looked up or
    /// created, and its address pushed. An operator pops the address of its second
    /// operand, then that of its first, emits a load of the first, the operation
    /// on the second and a store to a fresh temporary, and pushes the temporary's
    /// address. An opening bracket that was never closed, or an operator without two
    /// operands, is an error.
    pub open spec fn read(self, token: Seq<char>) -> Codegen {
        match symbol(token) {
            Some((value, entry_type)) => {
                let step = self.state.intern_checked(value, entry_type);
                Codegen {
                    state: step.state,
                    stack: if step.error is None {
                        self.stack.push(self.state.entry_for(value, entry_type).location)
                    } else {
                        self.stack
                    },
                    error: step.error,
                }
            },
            None => match operator_code(token) {
                None => Codegen { error: Some(syntax("Mismatched brackets"@)), ..self },
                Some(operation) => if self.stack.len() < 2 {
                    Codegen { error: Some(syntax("Malformed expression"@)), ..self }
                } else {
                    let second = self.stack[self.stack.len() - 1];
                    let first = self.stack[self.stack.len() - 2];
                    let temporary = self.state.data_counter;
                    let step = self.state.emit_checked(LOAD, first).then_emit(
                        operation,
                        second,
                    ).then_allocate().then_emit(STORE, temporary);
                    Codegen {
                        state: step.state,
                        stack: if step.error is None {
                            self.stack.drop_last().drop_last().push(temporary)
                        } else {
                            self.stack
                        },
                        error: step.error,
                    }
                },
            },
        }
    }

    /// Every address on the stack is an address of memory.
    pub open spec fn addresses(self) -> bool {
        forall|i: int| 0 <= i < self.stack.len() ==> #[trigger] self.stack[i] < MEMORY
    }
}

impl CompilerState {
    /// The code generator after the first `n` tokens of `tokens`, starting here with
    /// an empty stack. It stops at the first error.
    pub open spec fn generate(self, tokens: Seq<Seq<char>>, n: nat) -> Codegen
        decreases n,
    {
        if n == 0 {
            Codegen { state: self, stack: Seq::empty(), error: None }
        } else {
            let before = self.generate(tokens, (n - 1) as nat);
            if before.error is Some {
                before
            } else {
                before.read(tokens[n - 1])
            }
        }
    }

    /// `REM`: a comment. Nothing is checked and nothing is emitted.
    pub open spec fn rem(self, args: Seq<Seq<char>>) -> Step {
        self.done()
    }

    /// `INPUT v`: a read into variable `v`.
    pub open spec fn input(self, args: Seq<Seq<char>>) -> Step {
        if args.len() != 1 {
            self.failed(syntax("INPUT command takes one argument"@))
        } else {
            match symbol(args[0]) {
                None => self.failed(syntax("Invalid symbol"@)),
                Some((value, entry_type)) => if entry_type == TableEntryType::Constant {
                    self.failed(syntax("Cannot read into constant"@))
                } else {
                    self.intern_checked(value, TableEntryType::Variable).then_emit(
                        READ,
                        self.entry_for(value, TableEntryType::Variable).location,
                    )
                },
            }
        }
    }

    /// `PRINT x`: a write of the variable or constant `x`.
    pub open spec fn print(self, args: Seq<Seq<char>>) -> Step {
        if args.len() != 1 {
            self.failed(syntax("PRINT command takes one argument"@))
        } else {
            match symbol(args[0]) {
                None => self.failed(syntax("Invalid symbol"@)),
                Some((value, entry_type)) => self.intern_checked(value, entry_type).then_emit(
                    WRITE,
                    self.entry_for(value, entry_type).location,
                ),
            }
        }
    }

    /// `GOTO n`: a branch to line `n`.
    pub open spec fn goto(self, args: Seq<Seq<char>>) -> Step {
        if args.len() != 1 {
            self.failed(syntax("GOTO command takes 1 argument"@))
        } else {
            match symbol(args[0]) {
                None => self.failed(syntax("Invalid symbol"@)),
                Some((target, entry_type)) => if entry_type != TableEntryType::Constant {
                    self.failed(syntax("Cannot GOTO a variable"@))
                } else {
                    self.branch(BRANCH, target)
                },
            }
        }
    }

    /// The code of a comparison of the words at `left` and `right` that branches to
    /// line `target` if it holds. The accumulator takes the difference of the two, and
    /// the branches test it: `==` branches on zero, `<` on negative, `<=` on either;
    /// `>` and `>=` are `<` and `<=` with the operands exchanged.
    pub open spec fn compare(self, comparison: Comparison, left: u32, right: u32, target: i32) -> Step {
        match comparison {
            Comparison::Equal => self.emit_checked(LOAD, left).then_emit(SUBTRACT, right).then_branch(
                BRANCH_ZERO,
                target,
            ),
            Comparison::Less => self.emit_checked(LOAD, left).then_emit(SUBTRACT, right).then_branch(
                BRANCH_NEG,
                target,
            ),
            Comparison::Greater => self.emit_checked(LOAD, right).then_emit(
                SUBTRACT,
                left,
            ).then_branch(BRANCH_NEG, target),
            Comparison::LessOrEqual => self.emit_checked(LOAD, left).then_emit(
                SUBTRACT,
                right,
            ).then_branch(BRANCH_NEG, target).then_branch(BRANCH_ZERO, target),
            Comparison::GreaterOrEqual => self.emit_checked(LOAD, right).then_emit(
                SUBTRACT,
                left,
            ).then_branch(BRANCH_NEG, target).then_branch(BRANCH_ZERO, target),
        }
    }

    /// `IF a op b GOTO n`: a branch to line `n` if the comparison holds. The three
    /// operands are read first, then the two sides are looked up or created, then
    /// the comparison is read and its code emitted.
    pub open spec fn branch_if(self, args: Seq<Seq<char>>) -> Step {
        if args.len() != 5 {
            self.failed(syntax("IF...GOTO command takes 4 arguments"@))
        } else if symbol(args[0]) is None || symbol(args[2]) is None || symbol(args[4]) is None {
            self.failed(syntax("Invalid symbol"@))
        } else if symbol(args[4])->Some_0.1 != TableEntryType::Constant {
            self.failed(syntax("Cannot GOTO a variable"@))
        } else {
            let left = symbol(args[0])->Some_0;
            let right = symbol(args[2])->Some_0;
            let target = symbol(args[4])->Some_0.0;
            let first = self.intern_checked(left.0, left.1);
            if first.error is Some {
                first
            } else {
                let second = first.state.intern_checked(right.0, right.1);
                if second.error is Some {
                    second
                } else {
                    match comparison_named(args[1]) {
                        None => second.state.failed(syntax("Invalid comparison operator"@)),
                        Some(comparison) => second.state.compare(
                            comparison,
                            self.entry_for(left.0, left.1).location,
                            first.state.entry_for(right.0, right.1).location,
                            target,
                        ),
                    }
                }
            }
        }
    }

    /// `LET v = expression`: the expression is put into postfix order and code is
    /// generated for it token by token; then the result is loaded and stored in `v`.
    /// The first argument names the variable whatever it looks like, and the second
    /// argument is not looked at.
    pub open spec fn assign(self, args: Seq<Seq<char>>) -> Step {
        if args.len() < 3 {
            self.failed(syntax("Failed to parse LET command"@))
        } else {
            match symbol(args[0]) {
                None => self.failed(syntax("Invalid symbol"@)),
                Some((value, _)) => {
                    let variable = self.intern_checked(value, TableEntryType::Variable);
                    if variable.error is Some {
                        variable
                    } else {
                        match postfix(args.skip(2)) {
                            Err(error) => variable.state.failed(error),
                            Ok(tokens) => {
                                let generated = variable.state.generate(tokens, tokens.len());
                                if generated.error is Some {
                                    generated.state.failed(generated.error->Some_0)
                                } else if generated.stack.len() == 0 {
                                    generated.state.failed(syntax("Malformed expression"@))
                                } else {
                                    generated.state.emit_checked(
                                        LOAD,
                                        generated.stack.last(),
                                    ).then_emit(
                                        STORE,
                                        self.entry_for(value, TableEntryType::Variable).location,
                                    )
                                }
                            },
                        }
                    }
                },
            }
        }
    }

    /// `END`: a halt.
    pub open spec fn end(self, args: Seq<Seq<char>>) -> Step {
        if args.len() != 0 {
            self.failed(syntax("END command takes no arguments"@))
        } else {
            self.emit_checked(HALT, 0)
        }
    }

    /// The statement `command` with arguments `args`.
    pub open spec fn run(self, command: Command, args: Seq<Seq<char>>) -> Step {
        match command {
            Command::Rem => self.rem(args),
            Command::Input => self.input(args),
            Command::Print => self.print(args),
            Command::If => self.branch_if(args),
            Command::Goto => self.goto(args),
            Command::Let => self.assign(args),
            Command::End => self.end(args),
        }
    }
}

impl Command {
    /// The statement that a keyword in upper case names.
    pub fn from_keyword(keyword: &str) -> (command: Option<Command>)
        ensures
            command == command_named(keyword@),
    {
        if same_text(keyword, "REM") {
            Some(Command::Rem)
        } else if same_text(keyword, "INPUT") {
            Some(Command::Input)
        } else if same_text(keyword, "PRINT") {
            Some(Command::Print)
        } else if same_text(keyword, "IF") {
            Some(Command::If)
        } else if same_text(keyword, "GOTO") {
            Some(Command::Goto)
        } else if same_text(keyword, "LET") {
            Some(Command::Let)
        } else if same_text(keyword, "END") {
            Some(Command::End)
        } else {
            None
        }
    }
}

impl Comparison {
    /// The comparison that a token names.
    pub fn from_token(token: &str) -> (comparison: Option<Comparison>)
        ensures
            comparison == comparison_named(token@),
    {
        proof {
            reveal_strlit("==");
            reveal_strlit("<=");
            reveal_strlit(">=");
            assert("=="@ =~= seq!['=', '=']);
            assert("<="@ =~= seq!['<', '=']);
            assert(">="@ =~= seq!['>', '=']);
        }
        if same_text(token, "==") {
            Some(Comparison::Equal)
        } else if is_char(token, '<') {
            Some(Comparison::Less)
        } else if is_char(token, '>') {
            Some(Comparison::Greater)
        } else if same_text(token, "<=") {
            Some(Comparison::LessOrEqual)
        } else if same_text(token, ">=") {
            Some(Comparison::GreaterOrEqual)
        } else {
            None
        }
    }
}

/// The opcode of an arithmetic operator.
fn operator_of(token: &str) -> (operation: Option<u32>)
    ensures
        operation == operator_code(token@),
{
    if is_char(token, '+') {
        Some(ADD)
    } else if is_char(token, '-') {
        Some(SUBTRACT)
    } else if is_char(token, '/') {
        Some(DIVIDE)
    } else if is_char(token, '*') {
        Some(MULTIPLY)
    } else {
        None
    }
}

/// An error stops the code generator: later tokens do not change it.
pub proof fn lemma_generate_error_stays(start: CompilerState, tokens: Seq<Seq<char>>, n: nat, m: nat)
    requires
        start.generate(tokens, n).error is Some,
        n <= m,
    ensures
        start.generate(tokens, m) == start.generate(tokens, n),
    decreases m,
{
    if n < m {
        lemma_generate_error_stays(start, tokens, n, (m - 1) as nat);
    }
}

/// Copies of the arguments from position `from` on.
fn tail(args: &[String], from: usize) -> (rest: Vec<String>)
    requires
        from <= args@.len(),
    ensures
        texts(rest@) == texts(args@).skip(from as int),
{
    let mut rest: Vec<String> = Vec::new();
    let mut i: usize = from;
    while i < args.len()
        invariant
            from <= i <= args@.len(),
            texts(rest@) == texts(args@).subrange(from as int, i as int),
        decreases args@.len() - i,
    {
        let ghost earlier = rest@;
        let copy = args[i].clone();
        rest.push(copy);
        i += 1;
        proof {
            assert(texts(rest@) =~= texts(earlier).push(copy@));
            assert(texts(rest@) =~= texts(args@).subrange(from as int, i as int));
        }
    }
    proof {
        assert(texts(args@).subrange(from as int, i as int) =~= texts(args@).skip(from as int));
    }
    rest
}

/// `REM`: a comment.
pub fn rem(compiler: &mut Compiler, args: &[String]) -> (result: Result<(), MyError>)
    ensures
        final(compiler)@ == old(compiler)@.rem(texts(args@)).state,
        reports(result, old(compiler)@.rem(texts(args@)).error),
{
    Ok(())
}

/// `INPUT v`: emits a read into variable `v`.
pub fn input(compiler: &mut Compiler, args: &[String]) -> (result: Result<(), MyError>)
    requires
        old(compiler)@.wf(),
    ensures
        final(compiler)@ == old(compiler)@.input(texts(args@)).state,
        reports(result, old(compiler)@.input(texts(args@)).error),
        final(compiler)@.wf(),
{
    if args.len() != 1 {
        return Err(MyError::new(ErrorKind::Syntax, "INPUT command takes one argument"));
    }
    assert(texts(args@)[0] == args@[0]@);
    let (value, entry_type) = match read_symbol(args[0].as_str()) {
        None => return Err(MyError::new(ErrorKind::Syntax, "Invalid symbol")),
        Some(named) => named,
    };
    if entry_type == TableEntryType::Constant {
        return Err(MyError::new(ErrorKind::Syntax, "Cannot read into constant"));
    }
    let table_entry = match compiler.intern(value, TableEntryType::Variable) {
        Err(error) => return Err(error),
        Ok(entry) => entry,
    };
    compiler.emit(READ, table_entry.location)
}

/// `PRINT x`: emits a write of the variable or constant `x`.
pub fn print(compiler: &mut Compiler, args: &[String]) -> (result: Result<(), MyError>)
    requires
        old(compiler)@.wf(),
    ensures
        final(compiler)@ == old(compiler)@.print(texts(args@)).state,
        reports(result, old(compiler)@.print(texts(args@)).error),
        final(compiler)@.wf(),
{
    if args.len() != 1 {
        return Err(MyError::new(ErrorKind::Syntax, "PRINT command takes one argument"));
    }
    assert(texts(args@)[0] == args@[0]@);
    let (value, entry_type) = match read_symbol(args[0].as_str()) {
        None => return Err(MyError::new(ErrorKind::Syntax, "Invalid symbol")),
        Some(named) => named,
    };
    let table_entry = match compiler.intern(value, entry_type) {
        Err(error) => return Err(error),
        Ok(entry) => entry,
    };
    compiler.emit(WRITE, table_entry.location)
}

/// `GOTO n`: emits a branch to line `n`.
pub fn goto(compiler: &mut Compiler, args: &[String]) -> (result: Result<(), MyError>)
    requires
        old(compiler)@.wf(),
    ensures
        final(compiler)@ == old(compiler)@.goto(texts(args@)).state,
        reports(result, old(compiler)@.goto(texts(args@)).error),
        final(compiler)@.wf(),
{
    if args.len() != 1 {
        return Err(MyError::new(ErrorKind::Syntax, "GOTO command takes 1 argument"));
    }
    assert(texts(args@)[0] == args@[0]@);
    let (target, entry_type) = match read_symbol(args[0].as_str()) {
        None => return Err(MyError::new(ErrorKind::Syntax, "Invalid symbol")),
        Some(named) => named,
    };
    if entry_type != TableEntryType::Constant {
        return Err(MyError::new(ErrorKind::Syntax, "Cannot GOTO a variable"));
    }
    compiler.branch(BRANCH, target)
}

/// Emits the code of a comparison that branches to line `target` if it holds.
pub fn compare(
    compiler: &mut Compiler,
    comparison: Comparison,
    left: u32,
    right: u32,
    target: i32,
) -> (result: Result<(), MyError>)
    requires
        old(compiler)@.wf(),
        left < MEMORY,
        right < MEMORY,
    ensures
        final(compiler)@ == old(compiler)@.compare(comparison, left, right, target).state,
        reports(result, old(compiler)@.compare(comparison, left, right, target).error),
        final(compiler)@.wf(),
{
    let (first, second) = match comparison {
        Comparison::Equal | Comparison::Less | Comparison::LessOrEqual => (left, right),
        Comparison::Greater | Comparison::GreaterOrEqual => (right, left),
    };
    match compiler.emit(LOAD, first) {
        Err(error) => return Err(error),
        Ok(()) => {},
    }
    match compiler.emit(SUBTRACT, second) {
        Err(error) => return Err(error),
        Ok(()) => {},
    }
    match comparison {
        Comparison::Equal => compiler.branch(BRANCH_ZERO, target),
        Comparison::Less | Comparison::Greater => compiler.branch(BRANCH_NEG, target),
        Comparison::LessOrEqual | Comparison::GreaterOrEqual => {
            match compiler.branch(BRANCH_NEG, target) {
                Err(error) => return Err(error),
                Ok(()) => {},
            }
            compiler.branch(BRANCH_ZERO, target)
        },
    }
}

/// `IF a op b GOTO n`: emits a comparison of `a` and `b` that branches to line `n`.
pub fn branch_if(compiler: &mut Compiler, args: &[String]) -> (result: Result<(), MyError>)
    requires
        old(compiler)@.wf(),
    ensures
        final(compiler)@ == old(compiler)@.branch_if(texts(args@)).state,
        reports(result, old(compiler)@.branch_if(texts(args@)).error),
        final(compiler)@.wf(),
{
    if args.len() != 5 {
        return Err(MyError::new(ErrorKind::Syntax, "IF...GOTO command takes 4 arguments"));
    }
    assert(texts(args@)[0] == args@[0]@);
    assert(texts(args@)[1] == args@[1]@);
    assert(texts(args@)[2] == args@[2]@);
    assert(texts(args@)[4] == args@[4]@);
    let left = match read_symbol(args[0].as_str()) {
        None => return Err(MyError::new(ErrorKind::Syntax, "Invalid symbol")),
        Some(named) => named,
    };
    let right = match read_symbol(args[2].as_str()) {
        None => return Err(MyError::new(ErrorKind::Syntax, "Invalid symbol")),
        Some(named) => named,
    };
    let target = match read_symbol(args[4].as_str()) {
        None => return Err(MyError::new(ErrorKind::Syntax, "Invalid symbol")),
        Some(named) => named,
    };
    if target.1 != TableEntryType::Constant {
        return Err(MyError::new(ErrorKind::Syntax, "Cannot GOTO a variable"));
    }
    let table_entry1 = match compiler.intern(left.0, left.1) {
        Err(error) => return Err(error),
        Ok(entry) => entry,
    };
    let table_entry2 = match compiler.intern(right.0, right.1) {
        Err(error) => return Err(error),
        Ok(entry) => entry,
    };
    match Comparison::from_token(args[1].as_str()) {
        None => Err(MyError::new(ErrorKind::Syntax, "Invalid comparison operator")),
        Some(comparison) => compare(
            compiler,
            comparison,
            table_entry1.location,
            table_entry2.location,
            target.0,
        ),
    }
}

/// Generates the code for one token of a postfix expression.
fn generate_token(compiler: &mut Compiler, stack: &mut Vec<u32>, token: &str) -> (result: Result<
    (),
    MyError,
>)
    requires
        old(compiler)@.wf(),
        (Codegen { state: old(compiler)@, stack: old(stack)@, error: None }).addresses(),
    ensures
        (Codegen {
            state: final(compiler)@,
            stack: final(stack)@,
            error: (Codegen { state: old(compiler)@, stack: old(stack)@, error: None }).read(
                token@,
            ).error,
        }) == (Codegen { state: old(compiler)@, stack: old(stack)@, error: None }).read(token@),
        reports(
            result,
            (Codegen { state: old(compiler)@, stack: old(stack)@, error: None }).read(token@).error,
        ),
        final(compiler)@.wf(),
        (Codegen { state: final(compiler)@, stack: final(stack)@, error: None }).addresses(),
{
    match read_symbol(token) {
        Some((value, entry_type)) => {
            let table_entry = match compiler.intern(value, entry_type) {
                Err(error) => return Err(error),
                Ok(entry) => entry,
            };
            stack.push(table_entry.location);
            Ok(())
        },
        None => {
            let operation = match operator_of(token) {
                None => return Err(MyError::new(ErrorKind::Syntax, "Mismatched brackets")),
                Some(operation) => operation,
            };
            if stack.len() < 2 {
                return Err(MyError::new(ErrorKind::Syntax, "Malformed expression"));
            }
            let second_operand = stack[stack.len() - 1];
            let first_operand = stack[stack.len() - 2];
            match compiler.emit(LOAD, first_operand) {
                Err(error) => return Err(error),
                Ok(()) => {},
            }
            match compiler.emit(operation, second_operand) {
                Err(error) => return Err(error),
                Ok(()) => {},
            }
            let temporary = match compiler.allocate() {
                Err(error) => return Err(error),
                Ok(address) => address,
            };
            match compiler.emit(STORE, temporary) {
                Err(error) => return Err(error),
                Ok(()) => {},
            }
            stack.pop();
            stack.pop();
            stack.push(temporary);
            Ok(())
        },
    }
}

/// Generates the code for a postfix expression and leaves the address of its
/// result on top of `stack`.
fn generate(compiler: &mut Compiler, stack: &mut Vec<u32>, tokens: &Vec<String>) -> (result: Result<
    (),
    MyError,
>)
    requires
        old(compiler)@.wf(),
        old(stack)@.len() == 0,
    ensures
        (Codegen {
            state: final(compiler)@,
            stack: final(stack)@,
            error: old(compiler)@.generate(texts(tokens@), tokens@.len()).error,
        }) == old(compiler)@.generate(texts(tokens@), tokens@.len()),
        reports(result, old(compiler)@.generate(texts(tokens@), tokens@.len()).error),
        final(compiler)@.wf(),
        (Codegen { state: final(compiler)@, stack: final(stack)@, error: None }).addresses(),
{
    let ghost start = compiler@;
    let ghost words = texts(tokens@);
    let mut result: Result<(), MyError> = Ok(());
    let mut i: usize = 0;
    proof {
        assert(stack@ =~= Seq::empty());
    }
    while i < tokens.len() && result.is_ok()
        invariant
            i <= tokens@.len(),
            words == texts(tokens@),
            compiler@.wf(),
            (Codegen { state: compiler@, stack: stack@, error: None }).addresses(),
            (Codegen { state: compiler@, stack: stack@, error: start.generate(words, i as nat).error })
                == start.generate(words, i as nat),
            reports(result, start.generate(words, i as nat).error),
        decreases tokens@.len() - i,
    {
        assert(words[i as int] == tokens@[i as int]@);
        result = generate_token(compiler, stack, tokens[i].as_str());
        i += 1;
    }
    proof {
        if result.is_err() {
            lemma_generate_error_stays(start, words, i as nat, tokens@.len());
        }
    }
    result
}

/// `LET v = expression`: emits the code that computes the expression and stores
/// the result in `v`.
pub fn assign(compiler: &mut Compiler, args: &[String]) -> (result: Result<(), MyError>)
    requires
        old(compiler)@.wf(),
    ensures
        final(compiler)@ == old(compiler)@.assign(texts(args@)).state,
        reports(result, old(compiler)@.assign(texts(args@)).error),
        final(compiler)@.wf(),
{
    if args.len() < 3 {
        return Err(MyError::new(ErrorKind::Syntax, "Failed to parse LET command"));
    }
    assert(texts(args@)[0] == args@[0]@);
    let value = match read_symbol(args[0].as_str()) {
        None => return Err(MyError::new(ErrorKind::Syntax, "Invalid symbol")),
        Some(named) => named.0,
    };
    let table_entry = match compiler.intern(value, TableEntryType::Variable) {
        Err(error) => return Err(error),
        Ok(entry) => entry,
    };
    let postfix = match infix_to_postfix(tail(args, 2)) {
        Err(error) => return Err(error),
        Ok(postfix) => postfix,
    };
    let mut stack: Vec<u32> = Vec::new();
    match generate(compiler, &mut stack, &postfix) {
        Err(error) => return Err(error),
        Ok(()) => {},
    }
    if stack.len() == 0 {
        return Err(MyError::new(ErrorKind::Syntax, "Malformed expression"));
    }
    let top = stack[stack.len() - 1];
    match compiler.emit(LOAD, top) {
        Err(error) => return Err(error),
        Ok(()) => {},
    }
    compiler.emit(STORE, table_entry.location)
}

/// `END`: emits a halt.
pub fn end(compiler: &mut Compiler, args: &[String]) -> (result: Result<(), MyError>)
    requires
        old(compiler)@.wf(),
    ensures
        final(compiler)@ == old(compiler)@.end(texts(args@)).state,
        reports(result, old(compiler)@.end(texts(args@)).error),
        final(compiler)@.wf(),
{
    if args.len() != 0 {
        return Err(MyError::new(ErrorKind::Syntax, "END command takes no arguments"));
    }
    compiler.emit(HALT, 0)
}

impl Compiler {
    /// Compiles the statement `command` with arguments `args`.
    pub fn run(&mut self, command: Command, args: &[String]) -> (result: Result<(), MyError>)
        requires
            old(self)@.wf(),
        ensures
            final(self)@ == old(self)@.run(command, texts(args@)).state,
            reports(result, old(self)@.run(command, texts(args@)).error),
            final(self)@.wf(),
    {
        match command {
            Command::Rem => rem(self, args),
            Command::Input => input(self, args),
            Command::Print => print(self, args),
            Command::If => branch_if(self, args),
            Command::Goto => goto(self, args),
            Command::Let => assign(self, args),
            Command::End => end(self, args),
        }
    }
}

} // verus!
