//! Behavioural checks: literal bases, memory growth, input order, error
//! variants, and the wire format.

use intcode::assemble::{to_intcode, Intcode};
use intcode::run::{self, program_to_csv, Computer, State};

fn assemble(source: &str) -> String {
    let Intcode { output, .. } = to_intcode(source).unwrap();
    String::from_utf8(program_to_csv(&output)).unwrap()
}

fn outputs(program: Vec<i64>, inputs: Vec<i64>) -> Vec<i64> {
    let mut c = Computer::new(program);
    c.feed(inputs);
    let mut out = Vec::new();
    loop {
        match c.next().unwrap() {
            State::Yielded(v) => out.push(v),
            State::Waiting => panic!("program wants more input"),
            State::Complete => break out,
        }
    }
}

#[test]
fn integer_literals_agree_across_bases() {
    let tests = [
        "0b10011", "0o23", "19", "0x13", "0b1_0011", "0o_2_3_", "1_9_", "0x_13_",
    ];
    for lit in tests {
        let source = format!("DB {lit}");
        assert_eq!(assemble(&source), "19", "for {lit}");
    }
}

#[test]
fn negative_literals() {
    assert_eq!(assemble("DB -19, -0x13, -0b10011, -0o23"), "-19,-19,-19,-19");
    assert_eq!(assemble("DB -9223372036854775808"), "-9223372036854775808");
    assert_eq!(assemble("DB 9223372036854775807"), "9223372036854775807");
}

#[test]
fn memory_grows_with_zero_fill() {
    // Writing far past the end leaves a zero gap that reads as zero.
    let program = run::parse_program("1101,5,0,100,4,50,4,100,99");
    assert_eq!(outputs(program, vec![]), vec![0, 5]);
}

#[test]
fn inputs_consumed_in_order() {
    // Two inputs echoed back come out in the order they were fed.
    let program = run::parse_program("3,9,3,10,4,9,4,10,99,0,0");
    assert_eq!(outputs(program, vec![7, 9]), vec![7, 9]);
}

#[test]
fn waiting_preserves_state() {
    let program = run::parse_program("3,9,3,10,4,9,4,10,99,0,0");
    let mut c = Computer::new(program);
    c.feed(vec![7]);
    // First input is consumed, then the machine waits for the second.
    assert_eq!(c.next().unwrap(), State::Waiting);
    c.feed(vec![9]);
    assert_eq!(c.next().unwrap(), State::Yielded(7));
    assert_eq!(c.next().unwrap(), State::Yielded(9));
    assert_eq!(c.next().unwrap(), State::Complete);
}

#[test]
fn unknown_opcode_fails() {
    let program = run::parse_program("98");
    let mut c = Computer::new(program);
    assert_eq!(c.next(), Err(run::Error::UnknownOpcode { opcode: 98 }));
}

#[test]
fn unknown_mode_fails() {
    let program = run::parse_program("301,0,0,0");
    let mut c = Computer::new(program);
    assert_eq!(c.next(), Err(run::Error::UnknownMode { mode: 3 }));
}

#[test]
fn negative_address_fails() {
    let program = run::parse_program("4,-1,99");
    let mut c = Computer::new(program);
    assert_eq!(c.next(), Err(run::Error::BadConversion { num: -1 }));
}

#[test]
fn error_recovery_reports_each_statement() {
    let source = "ADD @\nMUL x\nFOO\nHLT\n";
    let errors = to_intcode(source).unwrap_err().errors;
    assert_eq!(errors.len(), 3);
}

#[test]
fn wire_format_round_trip() {
    let values = vec![1i64, -2, 9223372036854775807, -9223372036854775808, 0];
    let text = String::from_utf8(program_to_csv(&values)).unwrap();
    assert_eq!(text, "1,-2,9223372036854775807,-9223372036854775808,0");
    assert_eq!(run::try_parse_program(&text), Some(values));
}

#[test]
fn wire_format_tolerates_outer_whitespace() {
    assert_eq!(
        run::try_parse_program("  1,2,3\n"),
        Some(vec![1i64, 2, 3])
    );
    assert_eq!(run::try_parse_program(""), None);
    assert_eq!(run::try_parse_program("1,,2"), None);
    assert_eq!(run::try_parse_program("1, 2"), None);
}

#[test]
fn opcode_carries_parameter_modes() {
    // One instruction, every mode combination of its three parameters.
    assert_eq!(assemble("ADD 1, 2, 3"), "1,1,2,3");
    assert_eq!(assemble("ADD #1, 2, 3"), "101,1,2,3");
    assert_eq!(assemble("ADD 1, #2, 3"), "1001,1,2,3");
    assert_eq!(assemble("ADD #1, #2, 3"), "1101,1,2,3");
    assert_eq!(assemble("ADD rb+1, #2, rb+3"), "21201,1,2,3");
    assert_eq!(assemble("OUT #7"), "104,7");
    assert_eq!(assemble("OUT rb-1"), "204,-1");
}

#[test]
fn string_data_emits_byte_words() {
    assert_eq!(assemble("DB \"AB\", 0"), "65,66,0");
    assert_eq!(assemble("DB \"a\\tb\""), "97,9,98");
}
