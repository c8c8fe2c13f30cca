//! Disassembling intcode back into assembly, and assembling the result.

use intcode::assemble::{to_intcode, Intcode};
use intcode::disassemble::dynamically::{Input, Run};
use intcode::run::{parse_program, program_to_csv};

fn disassemble(ic: &str, runs: Vec<Run>) -> String {
    let program = parse_program(ic);
    let ast = intcode::disassemble::to_ast(program, runs).unwrap();
    String::from_utf8(intcode::disassemble::fmt::to_bytes(&ast)).unwrap()
}

fn assemble(source: &str) -> String {
    let Intcode { output, .. } = to_intcode(source).unwrap();
    String::from_utf8(program_to_csv(&output)).unwrap()
}

fn run_once() -> Vec<Run> {
    Run::once(Input::Forever(0))
}

fn run_twice() -> Vec<Run> {
    Run::twice(Input::Forever(0), Input::Forever(1))
}

fn assert_round_trip(source: &str, intcode: &str, runs: Vec<Run>) {
    assert_eq!(disassemble(intcode, runs), source);
    assert_eq!(assemble(source), intcode);
}

#[test]
fn basic_hello_world() {
    let source = r#"ARB #10
a: OUT rb
ARB #1
JNZ rb, #a
HLT
DB "Hello World!\n"
"#;
    let intcode = "109,10,204,0,109,1,1205,0,2,99,72,101,108,108,111,32,87,111,114,108,100,33,10";
    assert_round_trip(source, intcode, run_once());
}

#[test]
fn dis_advent_day2_example1() {
    let source = "\
a: ADD b, c, a+3
MUL a+3, d, 0
HLT
b: DB 30
c: DB 40
d: DB 50
";
    let intcode = "1,9,10,3,2,3,11,0,99,30,40,50";
    assert_round_trip(source, intcode, run_once());
}

#[test]
fn dis_advent_day5_example_immediate() {
    let source = "\
MUL a, #3, a
a: DB 33
";
    let intcode = "1002,4,3,4,33";
    assert_round_trip(source, intcode, run_once());
}

#[test]
fn dis_advent_day5_example_eq_positional() {
    let source = "\
IN a
EQ a, b, a
OUT a
HLT
a: DB -1
b: DB 8
";
    let intcode = "3,9,8,9,10,9,4,9,99,-1,8";
    assert_round_trip(source, intcode, run_once());
}

#[test]
fn dis_advent_day5_example_lt_positional() {
    let source = "\
IN a
LT a, b, a
OUT a
HLT
a: DB -1
b: DB 8
";
    let intcode = "3,9,7,9,10,9,4,9,99,-1,8";
    assert_round_trip(source, intcode, run_once());
}

#[test]
fn dis_advent_day5_example_eq_immediate() {
    let source = "\
IN a+1
a: EQ #-1, #8, a+1
OUT a+1
HLT
";
    let intcode = "3,3,1108,-1,8,3,4,3,99";
    assert_round_trip(source, intcode, run_once());
}

#[test]
fn dis_advent_day5_example_lt_immediate() {
    let source = "\
IN a+1
a: LT #-1, #8, a+1
OUT a+1
HLT
";
    let intcode = "3,3,1107,-1,8,3,4,3,99";
    assert_round_trip(source, intcode, run_once());
}

#[test]
fn dis_advent_day5_example_jump_positional() {
    let source = "\
IN a
JZ a, d
ADD b, c, b
OUT b
HLT
a: DB -1
b: DB 0
c: DB 1
d: DB 9
";
    let intcode = "3,12,6,12,15,1,13,14,13,4,13,99,-1,0,1,9";
    assert_round_trip(source, intcode, run_twice());
}

#[test]
fn dis_advent_day5_example_jump_immediate() {
    let source = "\
IN ip+1
JNZ #-1, #a
ADD #0, #0, b
a: OUT b
HLT
b: DB 1
";
    let intcode = "3,3,1105,-1,9,1101,0,0,12,4,12,99,1";
    assert_round_trip(source, intcode, run_once());
}

#[test]
fn dis_advent_day9_example_quine() {
    let source = "\
ARB #1
OUT rb-1
ADD 100, #1, 100
EQ 100, #16, 101
JZ 101, #0
HLT
";
    let intcode = "109,1,204,-1,1001,100,1,100,1008,100,16,101,1006,101,0,99";
    assert_round_trip(source, intcode, run_once());
}

#[test]
fn dis_advent_day9_example_16_digit_number() {
    let source = "\
MUL #34915192, #34915192, a
OUT a
HLT
a: DB 0
";
    let intcode = "1102,34915192,34915192,7,4,7,99,0";
    assert_round_trip(source, intcode, run_once());
}
