use simpletron::compiler::commands::{Command, Comparison};
use simpletron::compiler::expression::{infix_to_postfix, is_char};
use simpletron::compiler::passes::{compile_program, read_line_number, write_listing};
use simpletron::compiler::symbol_table::SymbolTable;
use simpletron::compiler::table_entry::{TableEntry, TableEntryType};
use simpletron::compiler::Compiler;
use simpletron::config::MEMORY;
use simpletron::types::{ErrorKind, MyError};

fn words(tokens: &[&str]) -> Vec<String> {
    tokens.iter().map(|token| token.to_string()).collect()
}

fn failure(lines: &[&str]) -> MyError {
    compile_program(&words(lines)).unwrap_err()
}

fn syntax_error(lines: &[&str], line: usize, details: &str) {
    let error = failure(lines);
    assert_eq!(error.kind, ErrorKind::Syntax);
    assert_eq!(error.details, details);
    assert_eq!(error.line, Some(line));
}

#[test]
fn a_new_compiler_is_empty() {
    let compiler = Compiler::new();
    assert_eq!(compiler.instruction_counter, 0);
    assert_eq!(compiler.data_counter, MEMORY - 1);
    assert_eq!(compiler.instructions, vec![0; MEMORY as usize]);
    assert_eq!(compiler.flags, vec![None; MEMORY as usize]);
    assert!(compiler.symbol_table.data.is_empty());
    let other = Compiler::default();
    assert_eq!(other.data_counter, MEMORY - 1);
}

#[test]
fn add_instruction_packs_opcode_and_operand() {
    let mut compiler = Compiler::new();
    compiler.add_instruction(0x20, 0x05);
    compiler.add_instruction(0x43, 0);
    assert_eq!(compiler.instructions[0], 0x2005);
    assert_eq!(compiler.instructions[1], 0x4300);
    assert_eq!(compiler.instruction_counter, 2);
    assert_eq!(compiler.data_counter, MEMORY - 1);
}

#[test]
fn add_flag_marks_the_last_instruction() {
    let mut compiler = Compiler::new();
    compiler.add_instruction(0x40, 0);
    compiler.add_flag(30);
    assert_eq!(compiler.flags[0], Some(30));
    assert_eq!(compiler.flags[1], None);
    assert_eq!(compiler.instructions[0], 0x4000);
}

#[test]
fn use_data_counter_hands_out_cells_from_the_top() {
    let mut compiler = Compiler::new();
    assert_eq!(compiler.use_data_counter(), 255);
    assert_eq!(compiler.use_data_counter(), 254);
    assert_eq!(compiler.data_counter, 253);
}

#[test]
fn find_or_create_symbol_is_idempotent() {
    let mut compiler = Compiler::new();
    let first = compiler.find_or_create_symbol(65, TableEntryType::Variable);
    assert_eq!(first.location, 255);
    assert_eq!(compiler.data_counter, 254);
    let second = compiler.find_or_create_symbol(65, TableEntryType::Variable);
    assert_eq!(second, first);
    assert_eq!(compiler.data_counter, 254);
    assert_eq!(compiler.symbol_table.data.len(), 1);
}

#[test]
fn a_constant_is_written_into_its_cell() {
    let mut compiler = Compiler::new();
    let variable = compiler.find_or_create_symbol(10, TableEntryType::Variable);
    let constant = compiler.find_or_create_symbol(10, TableEntryType::Constant);
    assert_eq!(variable.location, 255);
    assert_eq!(constant.location, 254);
    assert_eq!(compiler.instructions[255], 0);
    assert_eq!(compiler.instructions[254], 10);
    assert_eq!(compiler.data_counter, 253);
}

#[test]
fn the_same_value_is_a_different_symbol_for_each_kind() {
    let mut table = SymbolTable::new();
    let constant = TableEntry { symbol: 10, entry_type: TableEntryType::Constant, location: 7 };
    let line = TableEntry { symbol: 10, entry_type: TableEntryType::LineNumber, location: 3 };
    table.insert(constant);
    table.insert(line);
    assert_eq!(table.find(10, TableEntryType::Constant), Some(constant));
    assert_eq!(table.find(10, TableEntryType::LineNumber), Some(line));
    assert_eq!(table.find(10, TableEntryType::Variable), None);
    assert_eq!(table.find(11, TableEntryType::Constant), None);
}

#[test]
fn find_line_number_finds_lines_only() {
    let mut compiler = Compiler::new();
    compiler.find_or_create_symbol(10, TableEntryType::Constant);
    assert_eq!(compiler.find_line_number(10), None);
    compiler.statement("10 REM", 1).unwrap();
    let line = compiler.find_line_number(10).unwrap();
    assert_eq!(line.location, 0);
    assert_eq!(line.entry_type, TableEntryType::LineNumber);
}

#[test]
fn operators_follow_their_operands() {
    let postfix = infix_to_postfix(words(&["A", "+", "B"])).unwrap();
    assert_eq!(postfix, words(&["A", "B", "+"]));
    let postfix = infix_to_postfix(words(&["1", "-", "2", "-", "3"])).unwrap();
    assert_eq!(postfix, words(&["1", "2", "-", "3", "-"]));
    let postfix = infix_to_postfix(words(&["1", "*", "2", "+", "3"])).unwrap();
    assert_eq!(postfix, words(&["1", "2", "*", "3", "+"]));
    let postfix = infix_to_postfix(words(&["1", "+", "2", "/", "3"])).unwrap();
    assert_eq!(postfix, words(&["1", "2", "3", "/", "+"]));
}

#[test]
fn brackets_group_and_disappear() {
    let postfix = infix_to_postfix(words(&["(", "2", "+", "3", ")", "*", "4"])).unwrap();
    assert_eq!(postfix, words(&["2", "3", "+", "4", "*"]));
    let postfix = infix_to_postfix(words(&["(", "(", "X", ")", ")"])).unwrap();
    assert_eq!(postfix, words(&["X"]));
    let compiler = Compiler::new();
    let postfix = compiler.infix_to_postfix(words(&["2", "*", "(", "3", "+", "4", ")"])).unwrap();
    assert_eq!(postfix, words(&["2", "3", "4", "+", "*"]));
}

#[test]
fn an_unclosed_bracket_stays_in_the_output() {
    let postfix = infix_to_postfix(words(&["(", "1", "+", "2"])).unwrap();
    assert_eq!(postfix, words(&["1", "2", "+", "("]));
    assert_eq!(infix_to_postfix(words(&[])).unwrap(), words(&[]));
}

#[test]
fn a_closing_bracket_needs_an_opening_one() {
    let error = infix_to_postfix(words(&["1", "+", "2", ")"])).unwrap_err();
    assert_eq!(error.kind, ErrorKind::Syntax);
    assert_eq!(error.details, "Mismatched brackets");
}

#[test]
fn an_unknown_token_is_refused() {
    let error = infix_to_postfix(words(&["1", "%", "2"])).unwrap_err();
    assert_eq!(error.kind, ErrorKind::Syntax);
    assert_eq!(error.details, "Unexpected token %");
    let error = infix_to_postfix(words(&["1", "+", ""])).unwrap_err();
    assert_eq!(error.details, "Unexpected token ");
}

#[test]
fn is_char_wants_exactly_that_character() {
    assert!(is_char("(", '('));
    assert!(!is_char("((", '('));
    assert!(!is_char("", '('));
    assert!(!is_char(")", '('));
}

#[test]
fn keywords_are_read_in_upper_case() {
    assert_eq!(Command::from_keyword("REM"), Some(Command::Rem));
    assert_eq!(Command::from_keyword("INPUT"), Some(Command::Input));
    assert_eq!(Command::from_keyword("PRINT"), Some(Command::Print));
    assert_eq!(Command::from_keyword("IF"), Some(Command::If));
    assert_eq!(Command::from_keyword("GOTO"), Some(Command::Goto));
    assert_eq!(Command::from_keyword("LET"), Some(Command::Let));
    assert_eq!(Command::from_keyword("END"), Some(Command::End));
    assert_eq!(Command::from_keyword("end"), None);
    assert_eq!(Command::from_keyword(""), None);
    assert_eq!(Command::from_keyword("ENDS"), None);
}

#[test]
fn comparisons_are_read_from_their_tokens() {
    assert_eq!(Comparison::from_token("=="), Some(Comparison::Equal));
    assert_eq!(Comparison::from_token("<"), Some(Comparison::Less));
    assert_eq!(Comparison::from_token(">"), Some(Comparison::Greater));
    assert_eq!(Comparison::from_token("<="), Some(Comparison::LessOrEqual));
    assert_eq!(Comparison::from_token(">="), Some(Comparison::GreaterOrEqual));
    assert_eq!(Comparison::from_token("="), None);
    assert_eq!(Comparison::from_token("!="), None);
}

#[test]
fn a_keyword_may_be_in_lower_case() {
    let image = compile_program(&words(&["10 input a", "20 Print a", "30 end"])).unwrap();
    assert_eq!(&image[0..3], &[0x10ff, 0x11ff, 0x4300]);
}

#[test]
fn rem_emits_nothing() {
    let image = compile_program(&words(&["10 REM this is ( not checked", "20 END"])).unwrap();
    assert_eq!(image[0], 0x4300);
    assert_eq!(image[1], 0);
}

#[test]
fn print_takes_a_variable_or_a_constant() {
    let image = compile_program(&words(&["10 PRINT 5", "20 PRINT X", "30 PRINT 5", "40 END"])).unwrap();
    assert_eq!(&image[0..4], &[0x11ff, 0x11fe, 0x11ff, 0x4300]);
    assert_eq!(image[255], 5);
    assert_eq!(image[254], 0);
}

#[test]
fn a_branch_reaches_its_line_whether_it_comes_before_or_after() {
    let image = compile_program(&words(&["10 GOTO 30", "20 GOTO 10", "30 GOTO 30", "40 GOTO 20"])).unwrap();
    assert_eq!(&image[0..4], &[0x4002, 0x4000, 0x4002, 0x4001]);
}

#[test]
fn comparisons_are_lowered_to_load_subtract_branch() {
    let program = |op: &str| {
        compile_program(&words(&["10 REM", &format!("20 IF A {} B GOTO 10", op), "30 END"])).unwrap()
    };
    // A is at ff, B at fe, line 10 at 00.
    assert_eq!(&program("==")[0..4], &[0x20ff, 0x31fe, 0x4200, 0x4300]);
    assert_eq!(&program("<")[0..4], &[0x20ff, 0x31fe, 0x4100, 0x4300]);
    assert_eq!(&program(">")[0..4], &[0x20fe, 0x31ff, 0x4100, 0x4300]);
    assert_eq!(&program("<=")[0..5], &[0x20ff, 0x31fe, 0x4100, 0x4200, 0x4300]);
    assert_eq!(&program(">=")[0..5], &[0x20fe, 0x31ff, 0x4100, 0x4200, 0x4300]);
}

#[test]
fn both_branches_of_a_comparison_are_resolved_forward() {
    let image = compile_program(&words(&["10 IF A <= 3 GOTO 30", "20 PRINT A", "30 END"])).unwrap();
    assert_eq!(&image[0..6], &[0x20ff, 0x31fe, 0x4105, 0x4205, 0x11ff, 0x4300]);
    let image = compile_program(&words(&["10 IF A >= 3 GOTO 30", "20 PRINT A", "30 END"])).unwrap();
    assert_eq!(&image[0..6], &[0x20fe, 0x31ff, 0x4105, 0x4205, 0x11ff, 0x4300]);
}

#[test]
fn let_stores_each_operation_in_a_temporary() {
    let image = compile_program(&words(&["10 LET X = ( A - 1 ) / B", "20 END"])).unwrap();
    // X ff, A fe, 1 fd, temporary fc, B fb, temporary fa
    assert_eq!(
        &image[0..9],
        &[0x20fe, 0x31fd, 0x21fc, 0x20fc, 0x32fb, 0x21fa, 0x20fa, 0x21ff, 0x4300]
    );
    assert_eq!(image[0xfd], 1);
}

#[test]
fn let_names_its_variable_whatever_it_looks_like() {
    let image = compile_program(&words(&["10 LET 5 is 7", "20 PRINT 5", "30 END"])).unwrap();
    // The variable 5 is at ff and the constant 7 at fe; the constant 5 is another symbol, at fd.
    assert_eq!(&image[0..4], &[0x20fe, 0x21ff, 0x11fd, 0x4300]);
    assert_eq!(image[0xfe], 7);
    assert_eq!(image[0xfd], 5);
}

#[test]
fn a_line_needs_a_number_and_a_keyword() {
    syntax_error(&["10"], 1, "Incomplete statement");
    syntax_error(&[""], 1, "Incomplete statement");
    syntax_error(&["10 END", "END"], 2, "Incomplete statement");
    syntax_error(&["ten END"], 1, "Invalid line number");
    syntax_error(&["-10 END"], 1, "Invalid line number");
    syntax_error(&[" 10 END"], 1, "Invalid line number");
    syntax_error(&["10 STOP"], 1, "Invalid symbol STOP");
    syntax_error(&["10  END"], 1, "Invalid symbol ");
}

#[test]
fn statements_check_their_arguments() {
    syntax_error(&["10 INPUT"], 1, "INPUT command takes one argument");
    syntax_error(&["10 INPUT A B"], 1, "INPUT command takes one argument");
    syntax_error(&["10 INPUT 5"], 1, "Cannot read into constant");
    syntax_error(&["10 INPUT ?"], 1, "Invalid symbol");
    syntax_error(&["10 PRINT"], 1, "PRINT command takes one argument");
    syntax_error(&["10 PRINT AB"], 1, "Invalid symbol");
    syntax_error(&["10 GOTO"], 1, "GOTO command takes 1 argument");
    syntax_error(&["10 GOTO A"], 1, "Cannot GOTO a variable");
    syntax_error(&["10 GOTO 1x"], 1, "Invalid symbol");
    syntax_error(&["10 IF A == B"], 1, "IF...GOTO command takes 4 arguments");
    syntax_error(&["10 IF A == B GOTO C"], 1, "Cannot GOTO a variable");
    syntax_error(&["10 IF A != B GOTO 10"], 1, "Invalid comparison operator");
    syntax_error(&["10 IF A == ?? GOTO 10"], 1, "Invalid symbol");
    syntax_error(&["10 LET A ="], 1, "Failed to parse LET command");
    syntax_error(&["10 LET ?? = 1"], 1, "Invalid symbol");
    syntax_error(&["10 END", "20 END 1"], 2, "END command takes no arguments");
}

#[test]
fn expressions_are_checked() {
    syntax_error(&["10 LET A = 1 + 2 )"], 1, "Mismatched brackets");
    syntax_error(&["10 LET A = ( 1 + 2"], 1, "Mismatched brackets");
    syntax_error(&["10 LET A = 1 % 2"], 1, "Unexpected token %");
    syntax_error(&["10 LET A = 1 +"], 1, "Malformed expression");
    syntax_error(&["10 LET A = *"], 1, "Malformed expression");
    syntax_error(&["10 LET A = ( )"], 1, "Malformed expression");
}

#[test]
fn a_branch_to_a_missing_line_is_a_link_error() {
    let error = failure(&["10 GOTO 20", "30 END"]);
    assert_eq!(error.kind, ErrorKind::Link);
    assert_eq!(error.details, "GOTO failed: Line number 20 does not exist");
    assert_eq!(error.line, None);

    let error = failure(&["10 GOTO -1", "20 IF A == A GOTO 99"]);
    assert_eq!(error.kind, ErrorKind::Link);
    assert_eq!(error.details, "GOTO failed: Line number -1 does not exist");
}

#[test]
fn a_program_that_does_not_fit_is_refused() {
    // Each line takes one instruction and one new constant: 256 cells hold 127 of them.
    let lines: Vec<String> = (0..200).map(|i| format!("{} PRINT {}", i, i + 1000)).collect();
    let error = compile_program(&lines).unwrap_err();
    assert_eq!(error.kind, ErrorKind::Resource);
    assert_eq!(error.details, "Memory limit exceeded");
    assert_eq!(error.line, None);

    let fits: Vec<String> = lines[0..127].to_vec();
    assert!(compile_program(&fits).is_ok());
    let full: Vec<String> = lines[0..128].to_vec();
    assert_eq!(compile_program(&full).unwrap_err().kind, ErrorKind::Resource);
}

#[test]
fn code_alone_can_exhaust_memory() {
    let lines: Vec<String> = (0..300).map(|i| format!("{} END", i)).collect();
    assert_eq!(compile_program(&lines).unwrap_err().kind, ErrorKind::Resource);
    assert!(compile_program(&lines[0..254].to_vec()).is_ok());
    assert!(compile_program(&lines[0..255].to_vec()).is_err());
}

#[test]
fn one_long_statement_can_exhaust_memory() {
    let mut line = String::from("10 LET A = 1");
    for i in 0..100 {
        line.push_str(&format!(" + {}", i + 2));
    }
    let error = failure(&[&line]);
    assert_eq!(error.kind, ErrorKind::Resource);
    assert_eq!(error.details, "Memory limit exceeded");
}

#[test]
fn a_failed_compilation_leaves_the_first_error() {
    let mut compiler = Compiler::new();
    let error = compiler.compile(&words(&["10 PRINT A", "oops", "30 GOTO 99"])).unwrap_err();
    assert_eq!(error.kind, ErrorKind::Syntax);
    assert_eq!(error.line, Some(2));
    assert_eq!(compiler.instruction_counter, 1);
}

#[test]
fn a_line_number_is_its_own_symbol() {
    let image = compile_program(&words(&["2147483647 GOTO 2147483647"])).unwrap();
    assert_eq!(image[0], 0x4000);
    let mut compiler = Compiler::new();
    compiler.statement("2147483647 REM", 1).unwrap();
    assert_eq!(compiler.symbol_table.data[0].symbol, i32::MAX);
    assert_eq!(read_line_number("0"), Some(0));
    assert_eq!(read_line_number("+10"), Some(10));
    assert_eq!(read_line_number("2147483647"), Some(i32::MAX));
    assert_eq!(read_line_number("2147483648"), None);
    assert_eq!(read_line_number("4294967295"), None);
    assert_eq!(read_line_number("-1"), None);
    assert_eq!(read_line_number(""), None);
}

#[test]
fn a_line_number_that_is_no_symbol_is_refused() {
    syntax_error(&["4294967295 GOTO -1"], 1, "Invalid line number");
    syntax_error(&["10 REM", "2147483648 END"], 2, "Invalid line number");
    syntax_error(&["4294967296 END"], 1, "Invalid line number");
}

#[test]
fn a_negative_target_names_no_line() {
    let error = failure(&["10 GOTO -1"]);
    assert_eq!(error.kind, ErrorKind::Link);
    assert_eq!(error.details, "GOTO failed: Line number -1 does not exist");
    let error = failure(&["10 IF A < B GOTO -2147483648", "20 END"]);
    assert_eq!(error.kind, ErrorKind::Link);
    assert_eq!(error.details, "GOTO failed: Line number -2147483648 does not exist");
    let error = failure(&["10 GOTO 99", "20 END"]);
    assert_eq!(error.kind, ErrorKind::Link);
}

#[test]
fn an_instruction_is_emitted_wherever_the_counter_stands() {
    let mut compiler = Compiler::new();
    compiler.instruction_counter = 255;
    compiler.data_counter = 3;
    compiler.add_instruction(0xab, 0xcd);
    assert_eq!(compiler.instructions[255], 0xabcd);
    assert_eq!(compiler.instruction_counter, 256);
    assert_eq!(compiler.data_counter, 3);
    assert!(compiler.instructions[0..255].iter().all(|word| *word == 0));
    assert!(compiler.flags.iter().all(|flag| flag.is_none()));
}

#[test]
fn a_symbol_is_created_wherever_the_data_counter_can_move() {
    let mut compiler = Compiler::new();
    compiler.instruction_counter = 200;
    compiler.data_counter = 1;
    let first = compiler.find_or_create_symbol(7, TableEntryType::Constant);
    assert_eq!(first.location, 1);
    assert_eq!(compiler.instructions[1], 7);
    assert_eq!(compiler.data_counter, 0);
    let second = compiler.find_or_create_symbol(7, TableEntryType::Constant);
    assert_eq!(second, first);
    assert_eq!(compiler.data_counter, 0);
    assert_eq!(compiler.symbol_table.data.len(), 1);
}

#[test]
fn the_listing_has_one_word_on_each_line() {
    let image = compile_program(&words(&["10 PRINT -5", "20 END"])).unwrap();
    let listing = write_listing(&image);
    let lines: Vec<&str> = listing.split('\n').collect();
    assert_eq!(lines.len(), MEMORY as usize);
    assert!(lines.iter().all(|line| line.len() == 8));
    assert_eq!(lines[0], "000011ff");
    assert_eq!(lines[1], "00004300");
    assert_eq!(lines[2], "00000000");
    assert_eq!(lines[255], "fffffffb");
    assert_eq!(write_listing(&vec![]), "");
    assert_eq!(write_listing(&vec![1]), "00000001");
    assert_eq!(write_listing(&vec![1, -1]), "00000001\nffffffff");
}

#[test]
fn link_leaves_the_compiler_as_it_is() {
    let mut compiler = Compiler::new();
    compiler.first_pass(&words(&["10 GOTO 20", "20 END"])).unwrap();
    assert_eq!(compiler.instructions[0], 0x4000);
    assert_eq!(compiler.flags[0], Some(20));
    let image = compiler.link().unwrap();
    assert_eq!(image[0], 0x4001);
    assert_eq!(compiler.instructions[0], 0x4000);
}

#[test]
fn the_checked_steps_report_exhaustion() {
    let mut compiler = Compiler::new();
    compiler.instruction_counter = 10;
    compiler.data_counter = 9;
    assert_eq!(compiler.emit(0x43, 0).unwrap_err().kind, ErrorKind::Resource);
    assert_eq!(compiler.allocate().unwrap_err().kind, ErrorKind::Resource);
    assert_eq!(compiler.branch(0x40, 5).unwrap_err().kind, ErrorKind::Resource);
    assert_eq!(
        compiler.intern(1, TableEntryType::Constant).unwrap_err().details,
        "Memory limit exceeded"
    );
    assert_eq!(compiler.instruction_counter, 10);
    assert_eq!(compiler.data_counter, 9);

    let mut compiler = Compiler::new();
    assert_eq!(compiler.allocate().unwrap(), 255);
    compiler.emit(0x43, 0).unwrap();
    compiler.branch(0x40, 5).unwrap();
    assert_eq!(compiler.flags[1], Some(5));
    assert_eq!(compiler.intern(1, TableEntryType::Constant).unwrap().location, 254);
}

#[test]
fn run_dispatches_on_the_statement() {
    let mut compiler = Compiler::new();
    compiler.run(Command::Print, &words(&["A"])).unwrap();
    compiler.run(Command::End, &[]).unwrap();
    compiler.run(Command::Rem, &words(&["anything"])).unwrap();
    assert_eq!(&compiler.instructions[0..2], &[0x11ff, 0x4300]);
    assert_eq!(compiler.instruction_counter, 2);
}
