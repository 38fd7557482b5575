use simpletron::compiler::passes::{compile_program, write_listing};
use simpletron::compiler::expression::infix_to_postfix;
use simpletron::simulator::operations::{Action, Event, Request};
use simpletron::simulator::{read_number, Simulator, State};
use simpletron::text::split;
use simpletron::types::ErrorKind;

fn source(lines: &[&str]) -> Vec<String> {
    lines.iter().map(|line| line.to_string()).collect()
}

/// Loads the image through its listing and runs it, feeding `typed` to the reads.
fn run(image: &Vec<i32>, typed: &[&str]) -> (Vec<String>, Simulator) {
    let listing = write_listing(image);
    let lines: Vec<String> = listing.split('\n').map(|line| line.to_string()).collect();
    let mut machine = Simulator::new();
    machine.load(&lines).unwrap();
    machine.set_state(State::Running);
    let mut shown = Vec::new();
    let mut next = 0;
    let mut steps = 0;
    while machine.state == State::Running && steps < 10_000 {
        let event = match machine.request() {
            Request::Nothing => Event::Nothing,
            Request::Number => {
                let line = typed[next];
                next += 1;
                Event::Number(read_number(line).unwrap())
            }
            Request::Text => {
                let line = typed[next];
                next += 1;
                Event::Text(line.to_string())
            }
        };
        match machine.step(event) {
            Ok(Action::Write(value)) => shown.push(format!("{}", value)),
            Ok(Action::WriteText(text)) => shown.push(text.into_iter().collect()),
            Ok(_) => {}
            Err(_) => break,
        }
        steps += 1;
    }
    (shown, machine)
}

#[test]
fn an_expression_is_compiled_and_prints_14() {
    let postfix = infix_to_postfix(source(&["2", "+", "3", "*", "4"])).unwrap();
    assert_eq!(postfix, source(&["2", "3", "4", "*", "+"]));

    let image = compile_program(&source(&["10 LET A = 2 + 3 * 4", "20 PRINT A", "30 END"])).unwrap();
    assert_eq!(image.len(), 256);
    assert_eq!(
        &image[0..10],
        &[0x20fd, 0x33fc, 0x21fb, 0x20fe, 0x30fb, 0x21fa, 0x20fa, 0x21ff, 0x11ff, 0x4300]
    );
    assert_eq!(image[254], 2);
    assert_eq!(image[253], 3);
    assert_eq!(image[252], 4);

    let (shown, machine) = run(&image, &[]);
    assert_eq!(shown, vec!["14".to_string()]);
    assert_eq!(machine.state, State::Halted);
}

#[test]
fn a_forward_goto_skips_the_print() {
    let image = compile_program(&source(&["10 IF A == A GOTO 30", "20 PRINT A", "30 END"])).unwrap();
    // LOAD A, SUBTRACT A, BRANCH-IF-ZERO 4, WRITE A, HALT
    assert_eq!(&image[0..5], &[0x20ff, 0x31ff, 0x4204, 0x11ff, 0x4300]);
    let (shown, machine) = run(&image, &[]);
    assert!(shown.is_empty());
    assert_eq!(machine.state, State::Halted);
}

#[test]
fn what_is_typed_is_printed() {
    let image = compile_program(&source(&["10 INPUT A", "20 PRINT A", "30 END"])).unwrap();
    assert_eq!(&image[0..3], &[0x10ff, 0x11ff, 0x4300]);
    let (shown, machine) = run(&image, &["7\n"]);
    assert_eq!(shown, vec!["7".to_string()]);
    assert_eq!(machine.state, State::Halted);
}

#[test]
fn a_line_number_used_twice_is_a_syntax_error() {
    let error = compile_program(&source(&["10 END", "10 END"])).unwrap_err();
    assert_eq!(error.kind, ErrorKind::Syntax);
    assert_eq!(error.details, "Line number already used");
    assert_eq!(error.line, Some(2));
}

#[test]
fn split_keeps_empty_pieces() {
    assert_eq!(split("10 END"), source(&["10", "END"]));
    assert_eq!(split(""), source(&[""]));
    assert_eq!(split("a  b "), source(&["a", "", "b", ""]));
}
