//! Assembling and running whole programs.

use intcode::assemble::{to_intcode, Intcode};
use intcode::fmt::Plain;
use intcode::run::{program_to_csv, Computer, State};

fn assemble(source: &str) -> String {
    let Intcode { output, .. } = to_intcode(source).unwrap();
    String::from_utf8(program_to_csv(&output)).unwrap()
}

fn run_utf8(source: &str) -> String {
    let Intcode { output, warnings } = to_intcode(source).unwrap();
    assert_eq!(warnings.len(), 0);
    let mut c = Computer::new(output);
    let mut w: Vec<u8> = Vec::new();
    loop {
        match c.next().unwrap() {
            State::Yielded(value) => {
                w.push(u8::try_from(value).unwrap());
            }
            State::Waiting => {
                unreachable!();
            }
            State::Complete => {
                break String::from_utf8(w).unwrap();
            }
        }
    }
}

#[test]
fn run_hello_world() {
    let source = r#"
    ARB #message

loop:
    OUT rb
    ARB #1
    JNZ rb, #loop
    HLT

message:
    DB "Hello World!\n"
"#;
    assert_eq!(run_utf8(source), "Hello World!\n");
}

#[test]
fn db_with_ip() {
    let source = r#"DB _, ip+1, "abc""#;
    assert_eq!(assemble(source), "0,6,97,98,99");
}

#[test]
fn assemble_unused_label() {
    let source = "x: HLT";
    let Intcode { warnings, .. } = to_intcode(source).unwrap();
    let fmt = Plain::new(source);
    let rendered: Vec<String> = warnings
        .iter()
        .map(|w| String::from_utf8(fmt.warning(w)).unwrap())
        .collect();
    let expected = "
  --> <input>:1:1
   |
 1 | x: HLT
   | ^ label is never used
";
    assert_eq!(rendered.join("\n"), expected);
}

#[test]
fn quine_reproduces_itself() {
    let source = "\
ARB #1
OUT rb-1
ADD 100, #1, 100
EQ 100, #16, 101
JZ 101, #0
HLT
";
    let Intcode { output, .. } = to_intcode(source).unwrap();
    let mut c = Computer::new(output.clone());
    let mut got = Vec::new();
    loop {
        match c.next().unwrap() {
            State::Yielded(v) => got.push(v),
            State::Waiting => unreachable!(),
            State::Complete => break,
        }
    }
    assert_eq!(got, output);
}

#[test]
fn sixteen_digit_multiply() {
    let source = "\
MUL #34915192, #34915192, a
OUT a
HLT
a: DB 0
";
    let Intcode { output, .. } = to_intcode(source).unwrap();
    let mut c = Computer::new(output);
    let mut got = Vec::new();
    loop {
        match c.next().unwrap() {
            State::Yielded(v) => got.push(v),
            State::Waiting => unreachable!(),
            State::Complete => break,
        }
    }
    assert_eq!(got, vec![34915192i64 * 34915192]);
}
