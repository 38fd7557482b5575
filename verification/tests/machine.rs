use simpletron::compiler::passes::write_listing;
use simpletron::compiler::Compiler;
use simpletron::text::split_at;
use simpletron::config::{INSTRUCTIONS_SEP, MEMORY};
use simpletron::simulator::operations::{Action, Event, Request};
use simpletron::simulator::{read_program, sign, Simpletron, Simulator, State};
use simpletron::types::ErrorKind;

fn machine(program: &[i32]) -> Simulator {
    let mut machine = Simulator::new();
    for (i, word) in program.iter().enumerate() {
        machine.memory[i] = *word;
    }
    machine.set_state(State::Running);
    machine
}

fn lines(text: &[&str]) -> Vec<String> {
    text.iter().map(|line| line.to_string()).collect()
}

#[test]
fn a_new_machine_has_not_run() {
    let machine = Simulator::new();
    assert_eq!(machine.state, State::Halted);
    assert_eq!(machine.accumulator, 0);
    assert_eq!(machine.instruction_counter, 0);
    assert_eq!(machine.memory, vec![0; MEMORY as usize]);
    assert!(!machine.debug);
    let other: Simpletron = Simulator::default();
    assert_eq!(other.memory.len(), MEMORY as usize);
}

#[test]
fn the_setters_set() {
    let mut machine = Simulator::new();
    machine.set_state(State::Crashed);
    machine.set_instruction_counter(7);
    machine.set_debug(true);
    assert_eq!(machine.state, State::Crashed);
    assert_eq!(machine.instruction_counter, 7);
    assert!(machine.debug);
}

#[test]
fn sign_is_minus_below_zero() {
    let machine = Simulator::new();
    assert_eq!(machine.sign(-1), '-');
    assert_eq!(machine.sign(0), '+');
    assert_eq!(sign(5), '+');
    assert_eq!(sign(i32::MIN), '-');
}

#[test]
fn step_fetches_and_decodes() {
    let mut machine = machine(&[0x2005]);
    machine.memory[5] = 99;
    assert!(matches!(machine.step(Event::Nothing), Ok(Action::Nothing)));
    assert_eq!(machine.instruction_register, 0x2005);
    assert_eq!(machine.operation_code, 0x20);
    assert_eq!(machine.operand, 5);
    assert_eq!(machine.accumulator, 99);
    assert_eq!(machine.instruction_counter, 1);
    assert_eq!(machine.state, State::Running);
}

#[test]
fn every_opcode_and_operand_is_decoded_as_encoded() {
    for opcode in 0..INSTRUCTIONS_SEP {
        for operand in 0..INSTRUCTIONS_SEP {
            let mut compiler = Compiler::new();
            compiler.add_instruction(opcode, operand);
            let word = compiler.instructions[0];
            assert_eq!(word, (opcode * INSTRUCTIONS_SEP + operand) as i32);

            let mut machine = machine(&[word]);
            let _ = machine.step(Event::Nothing);
            assert_eq!(machine.instruction_register, word);
            assert_eq!(machine.operation_code, opcode);
            assert_eq!(machine.operand, operand);
        }
    }
}

#[test]
fn store_writes_the_accumulator() {
    let mut machine = machine(&[0x2110]);
    machine.accumulator = -3;
    machine.step(Event::Nothing).unwrap();
    assert_eq!(machine.memory[0x10], -3);
}

#[test]
fn arithmetic_wraps() {
    let mut machine = machine(&[0x3010, 0x3111, 0x3312, 0x3010]);
    machine.memory[0x10] = 1;
    machine.memory[0x11] = 2;
    machine.memory[0x12] = 2;
    machine.accumulator = i32::MAX;
    machine.step(Event::Nothing).unwrap();
    assert_eq!(machine.accumulator, i32::MIN);
    machine.step(Event::Nothing).unwrap();
    assert_eq!(machine.accumulator, i32::MAX - 1);
    machine.step(Event::Nothing).unwrap();
    assert_eq!(machine.accumulator, -4);
    machine.step(Event::Nothing).unwrap();
    assert_eq!(machine.accumulator, -3);
}

#[test]
fn division_rounds_towards_zero() {
    for (a, b, q, r) in [
        (7, 2, 3, 1),
        (-7, 2, -3, -1),
        (7, -2, -3, 1),
        (-7, -2, 3, -1),
        (0, 5, 0, 0),
        (i32::MIN, -1, i32::MIN, 0),
        (i32::MIN, 1, i32::MIN, 0),
        (5, 7, 0, 5),
    ] {
        let mut divide = machine(&[0x3210]);
        divide.memory[0x10] = b;
        divide.accumulator = a;
        divide.step(Event::Nothing).unwrap();
        assert_eq!(divide.accumulator, q, "{} / {}", a, b);

        let mut modulus = machine(&[0x3410]);
        modulus.memory[0x10] = b;
        modulus.accumulator = a;
        modulus.step(Event::Nothing).unwrap();
        assert_eq!(modulus.accumulator, r, "{} % {}", a, b);
    }
}

#[test]
fn division_by_zero_crashes_the_machine_where_it_is() {
    for code in [0x3210, 0x3410] {
        let mut machine = machine(&[0x2011, code]);
        machine.memory[0x11] = 8;
        machine.step(Event::Nothing).unwrap();
        let error = machine.step(Event::Nothing).unwrap_err();
        assert_eq!(error.kind, ErrorKind::Runtime);
        assert_eq!(machine.state, State::Crashed);
        assert_eq!(machine.instruction_counter, 1);
        assert_eq!(machine.accumulator, 8);
        if code == 0x3210 {
            assert_eq!(error.details, "Attempt to divide by zero");
        } else {
            assert_eq!(error.details, "Attempt to modulo by zero");
        }
    }
}

#[test]
fn exponentiate_multiplies_repeatedly() {
    for (base, exponent, result) in [
        (2, 10, 1024),
        (3, 0, 1),
        (0, 0, 1),
        (5, 1, 5),
        (7, -3, 1),
        (-2, 3, -8),
        (2, 31, i32::MIN),
        (2, 32, 0),
        (3, 21, 3i32.wrapping_pow(21)),
    ] {
        let mut machine = machine(&[0x3510]);
        machine.memory[0x10] = exponent;
        machine.accumulator = base;
        machine.step(Event::Nothing).unwrap();
        assert_eq!(machine.accumulator, result, "{} ^ {}", base, exponent);
    }
}

#[test]
fn branches_set_the_instruction_counter() {
    let mut machine = machine(&[0x4005]);
    machine.step(Event::Nothing).unwrap();
    assert_eq!(machine.instruction_counter, 5);

    let mut machine = machine_at(3, 0x4000);
    machine.step(Event::Nothing).unwrap();
    assert_eq!(machine.instruction_counter, 0);
}

fn machine_at(address: usize, word: i32) -> Simulator {
    let mut machine = Simulator::new();
    machine.memory[address] = word;
    machine.set_instruction_counter(address as u32);
    machine.set_state(State::Running);
    machine
}

#[test]
fn conditional_branches_look_at_the_accumulator() {
    for (code, accumulator, taken) in [
        (0x4109, -1, true),
        (0x4109, 0, false),
        (0x4109, 1, false),
        (0x4209, 0, true),
        (0x4209, -1, false),
        (0x4209, 1, false),
    ] {
        let mut machine = machine(&[code]);
        machine.accumulator = accumulator;
        machine.step(Event::Nothing).unwrap();
        assert_eq!(machine.instruction_counter, if taken { 9 } else { 1 });
    }
}

#[test]
fn halt_stops_the_machine_and_advances() {
    let mut machine = machine(&[0x4300]);
    assert!(matches!(machine.step(Event::Nothing), Ok(Action::Terminated)));
    assert_eq!(machine.state, State::Halted);
    assert_eq!(machine.instruction_counter, 1);
}

#[test]
fn a_word_without_an_opcode_halts_and_is_no_fault() {
    for word in [0, 5, 0x0f00, 0x4500, 0x1400, 0x7fff_ffff, -1, -0x2005, i32::MIN] {
        let mut machine = machine(&[word]);
        let action = machine.step(Event::Nothing).unwrap();
        assert!(matches!(action, Action::Invalid(_)), "{:x}", word);
        assert_eq!(machine.state, State::Halted);
        assert_eq!(machine.instruction_counter, 1);
    }
    let mut machine = machine(&[0x4500]);
    assert!(matches!(machine.step(Event::Nothing), Ok(Action::Invalid(0x45))));
}

#[test]
fn negative_words_decode_like_a_truncating_division() {
    let mut machine = machine(&[-0x2005]);
    machine.step(Event::Nothing).unwrap();
    assert_eq!(machine.operation_code, (-0x2005i32 / 0x100) as u32);
    assert_eq!(machine.operand, (-0x2005i32 % 0x100) as u32);
    let mut machine = machine_at(0, -5);
    machine.step(Event::Nothing).unwrap();
    assert_eq!(machine.operation_code, 0);
    assert_eq!(machine.operand, (-5i32) as u32);
}

#[test]
fn debug_follows_the_operand() {
    let mut machine = machine(&[0x4401, 0x4400, 0x44ff]);
    machine.step(Event::Nothing).unwrap();
    assert!(machine.debug);
    machine.step(Event::Nothing).unwrap();
    assert!(!machine.debug);
    machine.step(Event::Nothing).unwrap();
    assert!(machine.debug);
}

#[test]
fn read_asks_for_a_number_and_stores_it() {
    let mut machine = machine(&[0x1020]);
    assert_eq!(machine.request(), Request::Number);
    machine.step(Event::Number(-17)).unwrap();
    assert_eq!(machine.memory[0x20], -17);
    assert_eq!(machine.request(), Request::Nothing);
}

#[test]
fn a_read_without_its_number_crashes() {
    for event in [Event::Nothing, Event::Failed, Event::Text("7".to_string())] {
        let mut machine = machine(&[0x1020]);
        let error = machine.step(event).unwrap_err();
        assert_eq!(error.kind, ErrorKind::Io);
        assert_eq!(error.details, "Invalid token");
        assert_eq!(machine.state, State::Crashed);
        assert_eq!(machine.instruction_counter, 0);
    }
}

#[test]
fn write_shows_a_word() {
    let mut machine = machine(&[0x1120]);
    machine.memory[0x20] = 14;
    assert!(matches!(machine.step(Event::Nothing), Ok(Action::Write(14))));
}

#[test]
fn text_is_stored_with_its_length_and_shown_again() {
    let mut machine = machine(&[0x1220, 0x1320]);
    assert_eq!(machine.request(), Request::Text);
    machine.step(Event::Text("héllo\n".to_string())).unwrap();
    assert_eq!(machine.memory[0x20], 6);
    assert_eq!(machine.memory[0x21], 'h' as i32);
    assert_eq!(machine.memory[0x22], 'é' as i32);
    assert_eq!(machine.memory[0x26], '\n' as i32);
    assert_eq!(machine.memory[0x27], 0);
    match machine.step(Event::Nothing).unwrap() {
        Action::WriteText(text) => assert_eq!(text, vec!['h', 'é', 'l', 'l', 'o', '\n']),
        _ => panic!("a text was expected"),
    }
}

#[test]
fn shown_text_keeps_the_low_eight_bits() {
    let mut machine = machine(&[0x1320]);
    machine.memory[0x20] = 3;
    machine.memory[0x21] = 0x141;
    machine.memory[0x22] = -1;
    machine.memory[0x23] = 0x20ac;
    match machine.step(Event::Nothing).unwrap() {
        Action::WriteText(text) => assert_eq!(text, vec!['A', 'ÿ', '¬']),
        _ => panic!("a text was expected"),
    }
}

#[test]
fn text_that_leaves_memory_is_a_fault() {
    let mut machine = machine(&[0x12fe]);
    let error = machine.step(Event::Text("ab".to_string())).unwrap_err();
    assert_eq!(error.kind, ErrorKind::Runtime);
    assert_eq!(error.details, "Memory access out of range");
    assert_eq!(machine.state, State::Crashed);
    assert_eq!(machine.memory[0xfe], 0);

    let mut fits = machine_at(0, 0x12fe);
    fits.step(Event::Text("a".to_string())).unwrap();
    assert_eq!(&fits.memory[0xfe..], &[1, 'a' as i32]);

    for length in [-1, 2, 1000] {
        let mut machine = machine_at(0, 0x13fe);
        machine.memory[0xfe] = length;
        let error = machine.step(Event::Nothing).unwrap_err();
        assert_eq!(error.details, "Memory access out of range");
    }
    let mut empty = machine_at(0, 0x13ff);
    assert!(matches!(empty.step(Event::Nothing), Ok(Action::WriteText(text)) if text.is_empty()));
}

#[test]
fn running_off_the_end_of_memory_is_a_fault() {
    let mut machine = machine_at(255, 0x2000);
    machine.step(Event::Nothing).unwrap();
    assert_eq!(machine.instruction_counter, 256);
    assert_eq!(machine.request(), Request::Nothing);
    let error = machine.step(Event::Nothing).unwrap_err();
    assert_eq!(error.kind, ErrorKind::Runtime);
    assert_eq!(error.details, "Instruction counter out of memory");
    assert_eq!(machine.state, State::Crashed);
    assert_eq!(machine.instruction_counter, 256);
}

#[test]
fn load_replaces_the_first_words() {
    let mut machine = Simulator::new();
    machine.memory[2] = 77;
    machine.memory[3] = 78;
    machine.load(&lines(&["00002005", " ff ", "-1"])).unwrap();
    assert_eq!(&machine.memory[0..4], &[0x2005, 255, -1, 78]);
    assert_eq!(machine.state, State::Halted);
    machine.load(&lines(&[])).unwrap();
    assert_eq!(&machine.memory[0..4], &[0x2005, 255, -1, 78]);
}

#[test]
fn load_refuses_a_line_that_is_no_word() {
    let mut machine = Simulator::new();
    machine.memory[0] = 9;
    let error = machine.load(&lines(&["00000001", "zz", "??"])).unwrap_err();
    assert_eq!(error.kind, ErrorKind::Io);
    assert_eq!(error.details, "Invalid token");
    assert_eq!(error.line, Some(2));
    assert_eq!(machine.memory[0], 9);
    assert!(read_program(&lines(&["1", ""])).is_err());
    assert_eq!(read_program(&lines(&["1", "a"])).unwrap(), vec![1, 10]);
}

#[test]
fn load_refuses_more_lines_than_memory_has_words() {
    let mut machine = Simulator::new();
    let full: Vec<String> = (0..256).map(|i| format!("{:x}", i)).collect();
    machine.load(&full).unwrap();
    assert_eq!(machine.memory[255], 255);
    let long: Vec<String> = (0..257).map(|i| format!("{:x}", i)).collect();
    let error = machine.load(&long).unwrap_err();
    assert_eq!(error.kind, ErrorKind::Io);
    assert_eq!(error.details, "Program does not fit in memory");
    assert_eq!(error.line, None);
}

#[test]
fn enter_stops_at_the_sentinel() {
    let mut machine = Simulator::new();
    assert!(machine.enter(0, 0x4300));
    assert!(machine.enter(1, -9999));
    assert!(!machine.enter(2, -10000));
    assert_eq!(&machine.memory[0..3], &[0x4300, -9999, 0]);
}

#[test]
fn the_dump_shows_registers_and_memory() {
    let mut machine = machine(&[0x20ff]);
    machine.memory[0xff] = -2;
    machine.memory[0x1f] = 0x12345;
    machine.step(Event::Nothing).unwrap();
    let dump = machine.dump();
    let lines: Vec<&str> = dump.split('\n').collect();
    assert_eq!(lines[0], "REGISTERS:");
    assert_eq!(lines[1], "accumulator\t\t-fffffffe");
    assert_eq!(lines[2], "instruction_counter\t   01");
    assert_eq!(lines[3], "instruction_register\t+20ff");
    assert_eq!(lines[4], "operation_code\t\t   20");
    assert_eq!(lines[5], "operand\t\t\t   ff");
    assert_eq!(lines[6], "");
    assert_eq!(lines[7], "MEMORY");
    assert_eq!(
        lines[8],
        "       0     1     2     3     4     5     6     7     8     9     a     b     c     d     e     f"
    );
    assert_eq!(
        lines[9],
        "00 +20ff +0000 +0000 +0000 +0000 +0000 +0000 +0000 +0000 +0000 +0000 +0000 +0000 +0000 +0000 +0000"
    );
    assert!(lines[10].starts_with("10 +0000"));
    assert!(lines[10].ends_with(" +12345"));
    assert!(lines[24].starts_with("f0 +0000"));
    assert!(lines[24].ends_with(" -fffffffe"));
    assert_eq!(lines[25], "");
    assert_eq!(lines.len(), 26);
}

#[test]
fn the_trace_is_the_dump_while_debugging() {
    let mut machine = machine(&[0x4401]);
    assert_eq!(machine.trace(), None);
    machine.step(Event::Nothing).unwrap();
    assert_eq!(machine.trace(), Some(machine.dump()));
}

#[test]
fn what_the_compiler_writes_the_machine_reads_back() {
    let mut image = vec![0; MEMORY as usize];
    image[0] = 0x20ff;
    image[1] = 0x4300;
    image[2] = i32::MIN;
    image[254] = i32::MAX;
    image[255] = -5;
    let listing = write_listing(&image);
    let mut machine = Simulator::new();
    machine.memory[7] = 99;
    machine.load(&split_at(&listing, '\n')).unwrap();
    assert_eq!(machine.memory, image);

    let short = vec![-1, 2, -3];
    let mut machine = Simulator::new();
    machine.memory[3] = 99;
    machine.load(&split_at(&write_listing(&short), '\n')).unwrap();
    assert_eq!(&machine.memory[0..5], &[-1, 2, -3, 99, 0]);
}
