//! Parsing whole programs and raw parameters.

use intcode::ast::{Instr, Label, Mode, Param, Program, RawParam};
use intcode::error::Error;
use intcode::parse::grammar::program;
use intcode::parse::parser::Parser;
use intcode::span::{Span, S};

fn canon_label(l: &Label) -> String {
    match l {
        Label::Underscore => "_".to_string(),
        Label::InstructionPointer => "ip".to_string(),
        Label::Fixed(name) => String::from_utf8(name.to_vec()).unwrap(),
    }
}

fn canon_mode(m: &Mode) -> &'static str {
    match m {
        Mode::Positional => "pos",
        Mode::Immediate => "imm",
        Mode::Relative => "rel",
    }
}

fn canon_param(p: &S<Param>) -> String {
    match &p.0 {
        Param::Label(m, l, off) => format!("{} {}{:+}", canon_mode(m), canon_label(&l.0), off),
        Param::Number(m, v) => format!("{} {}", canon_mode(m), v),
    }
}

fn canon_raw(r: &S<RawParam>) -> String {
    match &r.0 {
        RawParam::Label(l, off) => format!("{}{:+}", canon_label(&l.0), off),
        RawParam::Number(v) => format!("{}", v),
        RawParam::Str(s) => format!("{:?}", String::from_utf8(s.as_bytes().to_vec()).unwrap()),
    }
}

/// The tree with its spans stripped, one statement per line.
fn canon(p: &Program) -> String {
    let mut out = String::new();
    for stmt in &p.stmts {
        if let Some(l) = &stmt.label {
            out.push_str(&canon_label(&l.0));
            out.push_str(": ");
        }
        let line = match &stmt.instr.0 {
            Instr::Add(a, b, c) => {
                format!("Add({}, {}, {})", canon_param(a), canon_param(b), canon_param(c))
            }
            Instr::Multiply(a, b, c) => {
                format!("Multiply({}, {}, {})", canon_param(a), canon_param(b), canon_param(c))
            }
            Instr::LessThan(a, b, c) => {
                format!("LessThan({}, {}, {})", canon_param(a), canon_param(b), canon_param(c))
            }
            Instr::Equal(a, b, c) => {
                format!("Equal({}, {}, {})", canon_param(a), canon_param(b), canon_param(c))
            }
            Instr::JumpNonZero(a, b) => {
                format!("JumpNonZero({}, {})", canon_param(a), canon_param(b))
            }
            Instr::JumpZero(a, b) => format!("JumpZero({}, {})", canon_param(a), canon_param(b)),
            Instr::Input(a) => format!("Input({})", canon_param(a)),
            Instr::Output(a) => format!("Output({})", canon_param(a)),
            Instr::AdjustRelativeBase(a) => format!("AdjustRelativeBase({})", canon_param(a)),
            Instr::Halt => "Halt".to_string(),
            Instr::Data(ds) => {
                let parts: Vec<String> = ds.iter().map(canon_raw).collect();
                format!("Data({})", parts.join(", "))
            }
        };
        out.push_str(&line);
        out.push('\n');
    }
    out
}

#[test]
fn tests_eat_raw_param_strings() {
    let tests = [
        ("\"Hello World!\"", "Hello World!", 0..14, true),
        ("\"Hello World!\\n\"", "Hello World!\n", 0..16, false),
        ("\"\u{1F60E}\"", "\u{1F60E}", 0..6, true),
        ("\"\u{1F60E}\\t\"", "\u{1F60E}\t", 0..8, false),
    ];
    for (source, string, range, is_borrowed) in tests {
        let mut parser = Parser::new(source);
        let (_, S(raw_param, span)) = parser.eat_raw_param().unwrap();
        assert_eq!(span, Span { m: range.start, n: range.end });
        match raw_param {
            RawParam::Str(value) => {
                assert_eq!(value.as_bytes(), string.as_bytes());
                assert_eq!(value.is_borrowed(), is_borrowed);
            }
            _ => unreachable!(),
        }
    }
}

#[test]
fn parse_eat_raw_param_strings() {
    let tests = [
        ("\"Hello World!\"", "Hello World!", 0..14, true),
        ("\"Hello World!\\n\"", "Hello World!\n", 0..16, false),
        ("\"\u{1F60E}\"", "\u{1F60E}", 0..6, true),
        ("\"\u{1F60E}\\t\"", "\u{1F60E}\t", 0..8, false),
    ];
    for (source, string, range, is_borrowed) in tests {
        let mut parser = Parser::new(source);
        let (_, S(raw, span)) = parser.eat_raw_param().unwrap();
        assert_eq!(span, Span { m: range.start, n: range.end });
        match raw {
            RawParam::Str(value) => {
                assert_eq!(value.as_bytes(), string.as_bytes());
                assert_eq!(value.is_borrowed(), is_borrowed);
            }
            _ => unreachable!(),
        }
    }
}

#[test]
fn tests_eat_program_basic() {
    let source = r#"
; An example program from Advent of Code 2019 Day 2.

ADD a, b, 3
MUL 3, c, 0 ; Inline comment
HLT

a: DB 30
b: DB 40
c: DB 50"#;
    let parsed = program(source).unwrap();
    let expected = "\
Add(pos a+0, pos b+0, pos 3)
Multiply(pos 3, pos c+0, pos 0)
Halt
a: Data(30)
b: Data(40)
c: Data(50)
";
    assert_eq!(canon(&parsed), expected);
}

#[test]
fn parse_eat_program_basic() {
    let source = r#"
; An example program from Advent of Code 2019 Day 2.

ADD a, b, 3
MUL 3, c, 0 ; Inline comment
HLT

a: DB 30
b: DB 40
c: DB 50"#;
    let parsed = program(source).unwrap();
    let expected = "\
Add(pos a+0, pos b+0, pos 3)
Multiply(pos 3, pos c+0, pos 0)
Halt
a: Data(30)
b: Data(40)
c: Data(50)
";
    assert_eq!(canon(&parsed), expected);
}

#[test]
fn tests_eat_program_errors() {
    let tests = [
        ("ADD @", 4..5, "unexpected character"),
        ("label x", 6..7, "expected a colon, found an identifier"),
        ("ADD \"\"", 4..6, "string parameter only allowed with `DB`"),
        (
            "ADD #rb+1",
            4..9,
            "both immediate and relative mode specified",
        ),
        ("DB #1", 3..4, "immediate mode not allowed with `DB`"),
        ("DB #rb+1", 3..4, "immediate mode not allowed with `DB`"),
        ("DB rb+1", 3..5, "relative mode not allowed with `DB`"),
        ("ADD x,", 6..6, "expected a parameter, found end of input"),
        ("ADD", 0..3, "expected 3 parameters, found 0"),
        ("ADD x, y", 0..3, "expected 3 parameters, found 2"),
        ("ADD x, y, z, w", 0..3, "expected 3 parameters, found 4"),
        ("ADD #-a", 6..7, "expected a number, found an identifier"),
        ("ADD MUL", 4..7, "expected a parameter, found a mnemonic"),
        ("YUP", 0..3, "unknown operation mnemonic"),
    ];
    for (source, range, msg) in tests {
        let errors = program(source).unwrap_err();
        assert_eq!(
            errors,
            [Error::new(msg, Span { m: range.start, n: range.end })],
            "for {source:?}"
        );
    }
}
