//! The two passes: statements to code, then flagged branches to addresses.

use vstd::prelude::*;
use vstd::string::StringExecFns;
use super::commands::{command_named, syntax, Command};
use super::symbol_table::{lemma_distinct_push, lookup};
use super::table_entry::{TableEntry, TableEntryType};
use super::{memory_limit, reports, Compiler, CompilerState, Step};
use crate::config::MEMORY;
use crate::text::{
    bits, decimal, hex_word, is_digit, lemma_hex_is_number, lemma_pieces_extend, parse_u32,
    parsed_u32, pieces, pieces_at, split, texts, to_decimal, to_uppercase, uppercase, word_to_hex,
};
use crate::types::{error_of, ErrorKind, ErrorView, MyError};

verus! {

/// The line number that a token holds: an unsigned decimal integer that is also a
/// symbol, that is, no larger than `i32::MAX`. A line is entered under its own
/// number and under nothing else, so a branch finds a line only if its target
/// equals the line's number.
pub open spec fn line_number(token: Seq<char>) -> Option<i32> {
    match parsed_u32(token) {
        Some(number) => if number <= i32::MAX {
            Some(number as i32)
        } else {
            None
        },
        None => None,
    }
}

/// An error as it is reported for source line `position`: a syntax error carries
/// the line, any other error is left as it is.
pub open spec fn located(error: ErrorView, position: usize) -> ErrorView {
    if error.kind == ErrorKind::Syntax {
        ErrorView { line: Some(position), ..error }
    } else {
        error
    }
}

/// The error for a branch to a line that the program does not have.
pub open spec fn missing_line(target: i32) -> ErrorView {
    error_of(
        ErrorKind::Link,
        "GOTO failed: Line number "@ + decimal(target as int) + " does not exist"@,
    )
}

impl CompilerState {
    /// One source line in the first pass. The line is split at spaces. It needs a
    /// line number that is an unsigned integer, no larger than `i32::MAX`, and not
    /// in use; a larger number is refused as an invalid line number, since no
    /// symbol could stand for it. The number is entered at the current instruction
    /// counter. Then the line needs a keyword, in either case, whose statement
    /// takes the remaining tokens. A statement after which code and data have met
    /// is an error.
    pub open spec fn statement(self, line: Seq<char>, position: usize) -> Step {
        let tokens = pieces(line);
        if tokens.len() < 2 {
            self.failed(located(syntax("Incomplete statement"@), position))
        } else {
            match line_number(tokens[0]) {
                None => self.failed(located(syntax("Invalid line number"@), position)),
                Some(number) => if lookup(self.symbol_table, number, TableEntryType::LineNumber)
                    is Some {
                    self.failed(located(syntax("Line number already used"@), position))
                } else {
                    let entered = self.enter_line(number);
                    match command_named(uppercase(tokens[1])) {
                        None => entered.failed(
                            located(syntax("Invalid symbol "@ + tokens[1]), position),
                        ),
                        Some(command) => {
                            let ran = entered.run(command, tokens.skip(2));
                            match ran.error {
                                Some(error) => ran.state.failed(located(error, position)),
                                None => if ran.state.exhausted() {
                                    ran.state.failed(memory_limit())
                                } else {
                                    ran
                                },
                            }
                        },
                    }
                },
            }
        }
    }

    /// The first pass over the first `n` lines of `lines`, starting here. Lines are
    /// counted from 1. The pass stops at the first error.
    pub open spec fn first_pass(self, lines: Seq<Seq<char>>, n: nat) -> Step
        decreases n,
    {
        if n == 0 {
            self.done()
        } else {
            let before = self.first_pass(lines, (n - 1) as nat);
            if before.error is Some {
                before
            } else {
                before.state.statement(lines[n - 1], n as usize)
            }
        }
    }

    /// The word at address `i` is flagged with a line that the program does not have.
    pub open spec fn dangling(self, i: int) -> bool {
        self.flags[i] is Some && lookup(
            self.symbol_table,
            self.flags[i]->Some_0,
            TableEntryType::LineNumber,
        ) is None
    }

    /// The lowest address below `n` whose word is flagged with a missing line.
    pub open spec fn first_dangling(self, n: nat) -> Option<int>
        decreases n,
    {
        if n == 0 {
            None
        } else {
            match self.first_dangling((n - 1) as nat) {
                Some(i) => Some(i),
                None => if self.dangling(n - 1) {
                    Some(n - 1)
                } else {
                    None
                },
            }
        }
    }

    /// The word at address `i` after the second pass: a flagged word has the address
    /// of its line added to it, any other word is unchanged.
    pub open spec fn resolved(self, i: int) -> i32 {
        match self.flags[i] {
            Some(target) => match lookup(self.symbol_table, target, TableEntryType::LineNumber) {
                Some(line) => (self.instructions[i] + line.location) as i32,
                None => self.instructions[i],
            },
            None => self.instructions[i],
        }
    }

    /// The second pass: the memory image with every flagged branch resolved, or the
    /// error for the first flagged word, in address order, whose line is missing.
    pub open spec fn link(self) -> Result<Seq<i32>, ErrorView> {
        match self.first_dangling(MEMORY as nat) {
            Some(i) => Err(missing_line(self.flags[i]->Some_0)),
            None => Ok(Seq::new(MEMORY as nat, |i: int| self.resolved(i))),
        }
    }

    /// Both passes over `lines`: the memory image, or the first error.
    pub open spec fn compiled(self, lines: Seq<Seq<char>>) -> Result<Seq<i32>, ErrorView> {
        let pass = self.first_pass(lines, lines.len());
        match pass.error {
            Some(error) => Err(error),
            None => pass.state.link(),
        }
    }
}

/// The memory image of the program `lines`, compiled from scratch.
pub open spec fn program(lines: Seq<Seq<char>>) -> Result<Seq<i32>, ErrorView> {
    CompilerState::initial().compiled(lines)
}

/// A memory image as it is written to a file: one word per line, eight
/// hexadecimal digits each, lines separated by a line feed.
pub open spec fn listing(words: Seq<i32>) -> Seq<char>
    decreases words.len(),
{
    if words.len() == 0 {
        Seq::empty()
    } else if words.len() == 1 {
        hex_word(words[0])
    } else {
        listing(words.drop_last()) + seq!['\n'] + hex_word(words.last())
    }
}

/// The lines of a listing are its words, eight digits each, in their order.
pub proof fn lemma_listing_lines(words: Seq<i32>)
    requires
        words.len() >= 1,
    ensures
        pieces_at(listing(words), '\n') == Seq::new(words.len(), |i: int| hex_word(words[i])),
    decreases words.len(),
{
    let last = hex_word(words.last());
    lemma_hex_is_number(bits(words.last()), 8);
    assert forall|i: int| 0 <= i < last.len() implies last[i] != '\n' by {
        assert(is_digit(last[i], 16));
    }
    let lines = Seq::new(words.len(), |i: int| hex_word(words[i]));
    if words.len() == 1 {
        let nothing = Seq::<char>::empty();
        lemma_pieces_extend(nothing, last, '\n');
        assert(nothing + last =~= last);
        assert(pieces_at(listing(words), '\n') =~= lines);
    } else {
        let init = words.drop_last();
        lemma_listing_lines(init);
        let head = listing(init) + seq!['\n'];
        assert(head.drop_last() =~= listing(init));
        assert(pieces_at(head, '\n') == pieces_at(listing(init), '\n').push(Seq::empty()));
        lemma_pieces_extend(head, last, '\n');
        assert(Seq::<char>::empty() + last =~= last);
        assert(pieces_at(listing(words), '\n') =~= lines);
    }
}

/// An error stops the first pass: later lines do not change it.
pub proof fn lemma_first_pass_error_stays(start: CompilerState, lines: Seq<Seq<char>>, n: nat, m: nat)
    requires
        start.first_pass(lines, n).error is Some,
        n <= m,
    ensures
        start.first_pass(lines, m) == start.first_pass(lines, n),
    decreases m,
{
    if n < m {
        lemma_first_pass_error_stays(start, lines, n, (m - 1) as nat);
    }
}

/// Where the second pass finds no missing line below `n`, no word below `n` is
/// flagged with one; where it finds one, that is the lowest.
pub proof fn lemma_first_dangling(state: CompilerState, n: nat)
    ensures
        match state.first_dangling(n) {
            Some(i) => 0 <= i < n && state.dangling(i) && forall|k: int|
                0 <= k < i ==> !state.dangling(k),
            None => forall|k: int| 0 <= k < n ==> !state.dangling(k),
        },
    decreases n,
{
    if n > 0 {
        lemma_first_dangling(state, (n - 1) as nat);
    }
}

/// Reads a line number from a token.
pub fn read_line_number(token: &str) -> (number: Option<i32>)
    ensures
        number == line_number(token@),
{
    match parse_u32(token) {
        Some(number) => if number <= 0x7fff_ffff {
            Some(number as i32)
        } else {
            None
        },
        None => None,
    }
}

impl MyError {
    /// This error as it is reported for source line `position`.
    pub fn located(self, position: usize) -> (e: MyError)
        ensures
            e@ == located(self@, position),
    {
        if self.kind == ErrorKind::Syntax {
            self.at_line(position)
        } else {
            self
        }
    }
}

impl Compiler {
    /// Compiles one source line, which is line `position` of the source.
    pub fn statement(&mut self, line: &str, position: usize) -> (result: Result<(), MyError>)
        requires
            old(self)@.wf(),
            !old(self)@.exhausted(),
        ensures
            final(self)@ == old(self)@.statement(line@, position).state,
            reports(result, old(self)@.statement(line@, position).error),
            final(self)@.wf(),
            result is Ok ==> !final(self)@.exhausted(),
    {
        let tokens = split(line);
        if tokens.len() < 2 {
            return Err(MyError::new(ErrorKind::Syntax, "Incomplete statement").located(position));
        }
        proof {
            assert(texts(tokens@)[0] == tokens@[0]@);
            assert(texts(tokens@)[1] == tokens@[1]@);
        }
        let symbol: i32 = match read_line_number(tokens[0].as_str()) {
            Some(number) => number,
            None => {
                return Err(
                    MyError::new(ErrorKind::Syntax, "Invalid line number").located(position),
                );
            },
        };
        if self.symbol_table.find(symbol, TableEntryType::LineNumber).is_some() {
            return Err(
                MyError::new(ErrorKind::Syntax, "Line number already used").located(position),
            );
        }
        let entry = TableEntry {
            symbol,
            entry_type: TableEntryType::LineNumber,
            location: self.instruction_counter,
        };
        proof {
            lemma_distinct_push(self@.symbol_table, entry);
        }
        self.symbol_table.insert(entry);
        let keyword = to_uppercase(tokens[1].as_str());
        let command = match Command::from_keyword(keyword.as_str()) {
            Some(command) => command,
            None => {
                return Err(
                    MyError::with_token(
                        ErrorKind::Syntax,
                        "Invalid symbol ",
                        tokens[1].as_str(),
                    ).located(position),
                );
            },
        };
        let args = vstd::slice::slice_subrange(tokens.as_slice(), 2, tokens.len());
        proof {
            assert(texts(args@) =~= texts(tokens@).skip(2));
        }
        match self.run(command, args) {
            Err(error) => Err(error.located(position)),
            Ok(()) => {
                if self.data_counter <= self.instruction_counter {
                    Err(MyError::new(ErrorKind::Resource, "Memory limit exceeded"))
                } else {
                    Ok(())
                }
            },
        }
    }

    /// The first pass: compiles `lines` one by one and stops at the first error.
    pub fn first_pass(&mut self, lines: &Vec<String>) -> (result: Result<(), MyError>)
        requires
            old(self)@.wf(),
            !old(self)@.exhausted(),
        ensures
            final(self)@ == old(self)@.first_pass(texts(lines@), lines@.len()).state,
            reports(result, old(self)@.first_pass(texts(lines@), lines@.len()).error),
            final(self)@.wf(),
    {
        let ghost start = self@;
        let ghost source = texts(lines@);
        let mut result: Result<(), MyError> = Ok(());
        let mut i: usize = 0;
        while i < lines.len() && result.is_ok()
            invariant
                i <= lines@.len(),
                source == texts(lines@),
                self@.wf(),
                result is Ok ==> !self@.exhausted(),
                self@ == start.first_pass(source, i as nat).state,
                reports(result, start.first_pass(source, i as nat).error),
            decreases lines@.len() - i,
        {
            assert(source[i as int] == lines@[i as int]@);
            result = self.statement(lines[i].as_str(), i + 1);
            i += 1;
        }
        proof {
            if result.is_err() {
                lemma_first_pass_error_stays(start, source, i as nat, lines@.len());
            }
        }
        result
    }

    /// The second pass: the memory image with the address of its line added to
    /// every flagged branch. The compiler itself is left as it is.
    pub fn link(&self) -> (result: Result<Vec<i32>, MyError>)
        requires
            self@.wf(),
        ensures
            match self@.link() {
                Ok(image) => result is Ok && result->Ok_0@ == image,
                Err(error) => result is Err && result->Err_0@ == error,
            },
    {
        let mut image: Vec<i32> = Vec::new();
        let mut i: usize = 0;
        while i < MEMORY as usize
            invariant
                i <= MEMORY,
                self@.wf(),
                self@.first_dangling(i as nat) is None,
                image@ == Seq::new(i as nat, |k: int| self@.resolved(k)),
            decreases MEMORY - i,
        {
            let word = self.instructions[i];
            match self.flags[i] {
                None => {
                    image.push(word);
                },
                Some(target) => {
                    match self.find_line_number(target) {
                        None => {
                            proof {
                                lemma_first_dangling_stays(self@, (i + 1) as nat, MEMORY as nat);
                            }
                            return Err(
                                MyError::around_token(
                                    ErrorKind::Link,
                                    "GOTO failed: Line number ",
                                    to_decimal(target).as_str(),
                                    " does not exist",
                                ),
                            );
                        },
                        Some(line) => {
                            proof {
                                super::symbol_table::lemma_lookup(
                                    self@.symbol_table,
                                    target,
                                    TableEntryType::LineNumber,
                                );
                            }
                            image.push(word + line.location as i32);
                        },
                    }
                },
            }
            i += 1;
            proof {
                assert(image@ =~= Seq::new(i as nat, |k: int| self@.resolved(k)));
            }
        }
        Ok(image)
    }

    /// Compiles the program `lines`: the first pass over every line, then the
    /// second pass over the flagged words. Returns the memory image, or the first
    /// error; on an error there is no image.
    pub fn compile(&mut self, lines: &Vec<String>) -> (result: Result<Vec<i32>, MyError>)
        requires
            old(self)@.wf(),
            !old(self)@.exhausted(),
        ensures
            final(self)@ == old(self)@.first_pass(texts(lines@), lines@.len()).state,
            final(self)@.wf(),
            match old(self)@.compiled(texts(lines@)) {
                Ok(image) => result is Ok && result->Ok_0@ == image,
                Err(error) => result is Err && result->Err_0@ == error,
            },
    {
        match self.first_pass(lines) {
            Err(error) => Err(error),
            Ok(()) => self.link(),
        }
    }
}

/// A missing line that the second pass has found stays the one it reports.
pub proof fn lemma_first_dangling_stays(state: CompilerState, n: nat, m: nat)
    requires
        state.first_dangling(n) is Some,
        n <= m,
    ensures
        state.first_dangling(m) == state.first_dangling(n),
    decreases m,
{
    if n < m {
        lemma_first_dangling_stays(state, n, (m - 1) as nat);
    }
}

/// Compiles the program `lines` from scratch.
pub fn compile_program(lines: &Vec<String>) -> (result: Result<Vec<i32>, MyError>)
    ensures
        match program(texts(lines@)) {
            Ok(image) => result is Ok && result->Ok_0@ == image,
            Err(error) => result is Err && result->Err_0@ == error,
        },
{
    let mut compiler = Compiler::new();
    compiler.compile(lines)
}

/// Writes a memory image as text: one word per line, eight hexadecimal digits each.
pub fn write_listing(words: &Vec<i32>) -> (text: String)
    ensures
        text@ == listing(words@),
{
    let mut text = String::new();
    let mut i: usize = 0;
    while i < words.len()
        invariant
            i <= words@.len(),
            text@ == listing(words@.take(i as int)),
        decreases words@.len() - i,
    {
        proof {
            reveal_strlit("\n");
            assert("\n"@ =~= seq!['\n']);
            assert(words@.take(i + 1).drop_last() =~= words@.take(i as int));
            assert(words@.take(i + 1).last() == words@[i as int]);
        }
        if i > 0 {
            text.append("\n");
        }
        text.append(word_to_hex(words[i]).as_str());
        i += 1;
        proof {
            if i == 1 {
                assert(text@ =~= listing(words@.take(i as int)));
            }
        }
    }
    proof {
        assert(words@.take(i as int) =~= words@);
    }
    text
}

} // verus!
