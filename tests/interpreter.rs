use brainfuck::{build_brace_map, clean, is_instruction, BracketError, Machine, Program, Step};

/// Runs `code` to the end on `tape`, taking input bytes from `input`;
/// returns the final tape and the bytes output.
fn run(code: &str, tape: Option<Vec<u8>>, input: &[u8]) -> (Vec<u8>, Vec<u8>) {
    let program = Program::new(clean(code.to_string())).expect("balanced brackets");
    let mut machine = Machine::new(tape);
    let mut output = Vec::new();
    let mut next_input = 0;
    loop {
        match machine.step(&program) {
            Step::Ran => {}
            Step::Output(b) => output.push(b),
            Step::NeedsInput => {
                machine.feed(&program, input[next_input]);
                next_input += 1;
            }
            Step::Halted => return (machine.tape, output),
        }
    }
}

fn chars(s: &str) -> Vec<char> {
    s.chars().collect()
}

#[test]
fn clean_keeps_only_instructions_in_order() {
    assert_eq!(clean("a+b-c[d]e<f>g.h,i".to_string()), chars("+-[]<>.,"));
    assert_eq!(clean("hello world".to_string()), Vec::<char>::new());
    assert_eq!(clean(String::new()), Vec::<char>::new());
    assert_eq!(clean("]]..x[[".to_string()), chars("]]..[["));
}

#[test]
fn is_instruction_recognizes_alphabet() {
    for c in ".,[]<>+-".chars() {
        assert!(is_instruction(c));
    }
    for c in "ab 0\n{}()".chars() {
        assert!(!is_instruction(c));
    }
}

#[test]
fn brace_map_pairs_nested_brackets() {
    let code = chars("+[[-]>[<]]");
    let table = build_brace_map(&code).unwrap();
    assert_eq!(table.target(1), Some(9));
    assert_eq!(table.target(9), Some(1));
    assert_eq!(table.target(2), Some(4));
    assert_eq!(table.target(4), Some(2));
    assert_eq!(table.target(6), Some(8));
    assert_eq!(table.target(8), Some(6));
    assert_eq!(table.target(0), None);
    assert_eq!(table.target(3), None);
}

#[test]
fn brace_map_of_code_without_brackets_is_empty() {
    let code = chars("+-<>.,");
    let table = build_brace_map(&code).unwrap();
    for i in 0..code.len() {
        assert_eq!(table.target(i), None);
    }
}

#[test]
fn unmatched_open_bracket_fails_construction() {
    assert_eq!(build_brace_map(&chars("+[")).err(), Some(BracketError::UnmatchedOpen));
    assert_eq!(build_brace_map(&chars("[[]")).err(), Some(BracketError::UnmatchedOpen));
    assert!(Program::new(chars("+[")).is_err());
}

#[test]
fn unmatched_close_bracket_fails_construction() {
    assert_eq!(build_brace_map(&chars("]")).err(), Some(BracketError::UnmatchedClose(0)));
    assert_eq!(build_brace_map(&chars("[]]")).err(), Some(BracketError::UnmatchedClose(2)));
    assert_eq!(build_brace_map(&chars("][")).err(), Some(BracketError::UnmatchedClose(0)));
    assert!(Program::new(chars("]")).is_err());
}

#[test]
fn increment_wraps_from_255_to_0() {
    let (tape, _) = run("+", Some(vec![255]), &[]);
    assert_eq!(tape, vec![0]);
}

#[test]
fn decrement_wraps_from_0_to_255() {
    let (tape, _) = run("-", None, &[]);
    assert_eq!(tape, vec![255]);
}

#[test]
fn decrement_pointer_at_zero_is_a_no_op() {
    let program = Program::new(chars("<")).unwrap();
    let mut machine = Machine::new(Some(vec![3, 4]));
    assert_eq!(machine.step(&program), Step::Ran);
    assert_eq!(machine.cell, 0);
    assert_eq!(machine.tape, vec![3, 4]);
    assert_eq!(machine.step(&program), Step::Halted);
}

#[test]
fn increment_pointer_past_end_appends_one_zero_cell() {
    let program = Program::new(chars(">>")).unwrap();
    let mut machine = Machine::new(Some(vec![7, 9]));
    machine.step(&program);
    assert_eq!(machine.cell, 1);
    assert_eq!(machine.tape, vec![7, 9]);
    machine.step(&program);
    assert_eq!(machine.cell, 2);
    assert_eq!(machine.tape, vec![7, 9, 0]);
}

#[test]
fn add_via_loop() {
    let (tape, output) = run("++>+++++[<+>-]", None, &[]);
    assert_eq!(tape[0], 7);
    assert_eq!(tape[1], 0);
    assert!(output.is_empty());
}

#[test]
fn truncated_loop_never_runs() {
    assert_eq!(Program::new(clean("+[".to_string())).err(), Some(BracketError::UnmatchedOpen));
}

#[test]
fn lone_close_bracket_fails_immediately() {
    assert_eq!(
        Program::new(clean("]".to_string())).err(),
        Some(BracketError::UnmatchedClose(0))
    );
}

#[test]
fn empty_program_returns_tape_unchanged() {
    let (tape, output) = run("no instructions here", None, &[]);
    assert_eq!(tape, vec![0]);
    assert!(output.is_empty());
    let (tape, _) = run("", Some(vec![1, 2, 3]), &[]);
    assert_eq!(tape, vec![1, 2, 3]);
}

#[test]
fn echo_one_input_byte() {
    let (tape, output) = run(",.", None, &[65]);
    assert_eq!(output, vec![b'A']);
    assert_eq!(tape, vec![65]);
}

#[test]
fn step_waits_for_input_without_moving() {
    let program = Program::new(chars(",")).unwrap();
    let mut machine = Machine::new(None);
    assert_eq!(machine.step(&program), Step::NeedsInput);
    assert_eq!(machine.pc, 0);
    machine.feed(&program, 200);
    assert_eq!(machine.tape, vec![200]);
    assert_eq!(machine.pc, 1);
    assert_eq!(machine.step(&program), Step::Halted);
}

#[test]
fn machine_on_empty_tape_gets_one_cell() {
    let machine = Machine::new(Some(Vec::new()));
    assert_eq!(machine.tape, vec![0]);
    assert_eq!(machine.cell, 0);
}

#[test]
fn skip_loop_when_cell_is_zero() {
    let (tape, _) = run("[+++]+", None, &[]);
    assert_eq!(tape, vec![1]);
}

#[test]
fn hello_output() {
    // 8 * 9 = 72 = 'H', then 105 = 'i'
    let (_, output) = run("++++++++[>+++++++++<-]>.+++++++++++++++++++++++++++++++++.", None, &[]);
    assert_eq!(output, b"Hi".to_vec());
}
