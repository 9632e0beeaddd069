//! Turning the outcome of a batch evaluation into the source of a standalone
//! Rust program.
use vstd::prelude::*;
use vstd::string::*;

use crate::error::Error;
use crate::interpreter::{eval, run, start, Status, STEP_LIMIT};
use crate::text::{
    decimal, decimals, fields, is_digit, join, lemma_split_decimals, push_digits, push_joined,
    token_value,
};

verus! {

/// A self-contained Intcode interpreter, written out ahead of the `main` of a
/// program that resumes a suspended run. `run` executes from a given
/// instruction and reads each input value from the terminal, prompting again
/// until a line holds an integer. It follows `step_spec` instruction by
/// instruction, with the terminal in place of the finite input.
pub const RUNTIME: &'static str = r#"use std::fmt;
use std::io::{self, BufRead, Write};

#[allow(dead_code)]
enum Error {
    InvalidInput { token: String, position: usize },
    InvalidOpcode { opcode: i64, position: usize },
    MissingParameter { parameter: u8, opcode: i64, position: usize },
    NegativePositionalParameter { value: i64, parameter: u8, opcode: i64, position: usize },
    InvalidParameterMode { mode: i64, parameter: u8, opcode: i64, position: usize },
    PositionOutOfRange { index: usize, parameter: u8, opcode: i64, position: usize },
}

impl fmt::Display for Error {
    fn fmt(&self, f: &mut fmt::Formatter<'_>) -> fmt::Result {
        match self {
            Error::InvalidInput { token, position } => {
                write!(f, "Invalid token \"{}\" at position {}", token, position)
            }
            Error::InvalidOpcode { opcode, position } => {
                write!(f, "Invalid opcode \"{}\" at position {}", opcode, position)
            }
            Error::MissingParameter { parameter, opcode, position } => write!(
                f,
                "Missing parameter {} for opcode \"{}\" at position {}",
                parameter, opcode, position
            ),
            Error::NegativePositionalParameter { value, parameter, opcode, position } => write!(
                f,
                "Negative value {} for positional parameter {} for opcode \"{}\" at position {}",
                value, parameter, opcode, position
            ),
            Error::InvalidParameterMode { mode, parameter, opcode, position } => write!(
                f,
                "Invalid parameter mode \"{}\" for parameter {} of opcode \"{}\" at position {}",
                mode, parameter, opcode, position
            ),
            Error::PositionOutOfRange { index, parameter, opcode, position } => write!(
                f,
                "Position {} past the end of memory for parameter {} of opcode \"{}\" at position {}",
                index, parameter, opcode, position
            ),
        }
    }
}

struct Failure(Error);

impl fmt::Debug for Failure {
    fn fmt(&self, f: &mut fmt::Formatter<'_>) -> fmt::Result {
        write!(f, "{}", self.0)
    }
}

#[derive(Clone, Copy)]
enum Parameter {
    Position(usize),
    Immediate(i64),
}

fn parameter(code: &[i64], i: &mut usize, mode: i64, n: u8, opcode: i64, target: bool) -> Result<Parameter, Error> {
    let word = match code.get(*i) {
        Some(word) => *word,
        None => return Err(Error::MissingParameter { parameter: n, opcode, position: *i }),
    };
    *i += 1;
    match mode {
        0 => usize::try_from(word).map(Parameter::Position).map_err(|_| {
            Error::NegativePositionalParameter { value: word, parameter: n, opcode, position: *i }
        }),
        1 if !target => Ok(Parameter::Immediate(word)),
        _ => Err(Error::InvalidParameterMode { mode, parameter: n, opcode, position: *i }),
    }
}

fn read(code: &[i64], p: Parameter, n: u8, opcode: i64, position: usize) -> Result<i64, Error> {
    match p {
        Parameter::Position(index) => code.get(index).copied().ok_or(Error::PositionOutOfRange {
            index,
            parameter: n,
            opcode,
            position,
        }),
        Parameter::Immediate(value) => Ok(value),
    }
}

fn cell(code: &[i64], p: Parameter, n: u8, opcode: i64, position: usize) -> Result<usize, Error> {
    match p {
        Parameter::Position(index) if index < code.len() => Ok(index),
        Parameter::Position(index) => Err(Error::PositionOutOfRange { index, parameter: n, opcode, position }),
        Parameter::Immediate(_) => Err(Error::InvalidParameterMode { mode: 1, parameter: n, opcode, position }),
    }
}

fn read_value() -> i64 {
    let stdin = io::stdin();
    loop {
        print!("> ");
        io::stdout().flush().expect("cannot write to stdout");
        let mut line = String::new();
        stdin.lock().read_line(&mut line).expect("cannot read from stdin");
        match line.replace('\n', "").replace('\r', "").parse() {
            Ok(value) => {
                println!();
                return value;
            }
            Err(_) => {
                println!("Invalid");
                println!();
            }
        }
    }
}

fn run(code: &mut [i64], start: usize) -> Result<(), Error> {
    let mut ip = start;
    while let Some(&word) = code.get(ip) {
        let mut i = ip + 1;
        let opcode = word % 100;
        let mode = |k: u32| word / 10i64.pow(k + 2) % 10;
        match opcode {
            1 | 2 | 7 | 8 => {
                let n1 = parameter(code, &mut i, mode(0), 0, opcode, false)?;
                let n2 = parameter(code, &mut i, mode(1), 1, opcode, false)?;
                let to = parameter(code, &mut i, mode(2), 2, opcode, true)?;
                let a = read(code, n1, 0, opcode, i)?;
                let b = read(code, n2, 1, opcode, i)?;
                let t = cell(code, to, 2, opcode, i)?;
                code[t] = match opcode {
                    1 => a.wrapping_add(b),
                    2 => a.wrapping_mul(b),
                    7 => (a < b) as i64,
                    _ => (a == b) as i64,
                };
            }
            3 => {
                let to = parameter(code, &mut i, mode(0), 0, opcode, true)?;
                let value = read_value();
                let t = cell(code, to, 0, opcode, i)?;
                code[t] = value;
            }
            4 => {
                let from = parameter(code, &mut i, mode(0), 0, opcode, false)?;
                println!("{}", read(code, from, 0, opcode, i)?);
            }
            5 | 6 => {
                let test = parameter(code, &mut i, mode(0), 0, opcode, false)?;
                let goto = parameter(code, &mut i, mode(1), 1, opcode, false)?;
                if (read(code, test, 0, opcode, i)? != 0) == (opcode == 5) {
                    let g = read(code, goto, 1, opcode, i)?;
                    i = usize::try_from(g).map_err(|_| Error::NegativePositionalParameter {
                        value: g,
                        parameter: 1,
                        opcode,
                        position: i,
                    })?;
                }
            }
            99 => return Ok(()),
            _ => return Err(Error::InvalidOpcode { opcode, position: i }),
        }
        ip = i;
    }
    Ok(())
}
"#;

/// The statement that prints the values, one per line.
pub open spec fn output_statement(output: Seq<i64>) -> Seq<char> {
    "println!(\""@ + join(decimals(output), "\\n"@) + "\");"@
}

/// The statement that declares memory as a fixed-size array literal.
pub open spec fn code_statement(code: Seq<i64>) -> Seq<char> {
    "let mut code: [i64; "@ + decimal(code.len() as int) + "] = ["@ + join(decimals(code), ", "@)
        + "];"@
}

/// The statement that declares where execution resumes.
pub open spec fn pointer_statement(i: usize) -> Seq<char> {
    "let i: usize = "@ + decimal(i as int) + ";"@
}

/// The indented line that prints the captured output, if there is any.
pub open spec fn output_line(output: Seq<i64>) -> Seq<char> {
    if output.len() > 0 {
        "    "@ + output_statement(output) + "\n"@
    } else {
        Seq::empty()
    }
}

/// The program for a run that completed: it prints the captured output and
/// holds nothing of the machine's state.
pub open spec fn printer_program(output: Seq<i64>) -> Seq<char> {
    "fn main() {\n"@ + output_line(output) + "}\n"@
}

/// The program for a suspended run: the interpreter, then a `main` that prints
/// the captured output and runs the residual memory from the resume point.
pub open spec fn resuming_program(output: Seq<i64>, code: Seq<i64>, i: usize) -> Seq<char> {
    RUNTIME@ + "\nfn main() -> Result<(), Failure> {\n"@ + output_line(output) + "    "@
        + code_statement(code) + "\n    "@ + pointer_statement(i)
        + "\n    run(&mut code, i).map_err(Failure)\n}\n"@
}

/// `println!("1\n2\n3");` for the values 1, 2, 3.
pub fn transpile_output(output: &[i64]) -> (r: String)
    ensures
        r@ == output_statement(output@),
{
    let mut r = String::new();
    r.append("println!(\"");
    push_joined(&mut r, output, "\\n");
    r.append("\");");
    r
}

/// `let mut code: [i64; 3] = [1, 2, 3];` for the memory 1, 2, 3.
pub fn transpile_code(code: &[i64]) -> (r: String)
    ensures
        r@ == code_statement(code@),
{
    let mut r = String::new();
    r.append("let mut code: [i64; ");
    push_digits(&mut r, code.len() as u64);
    r.append("] = [");
    push_joined(&mut r, code, ", ");
    r.append("];");
    r
}

/// `let i: usize = 0;` for the resume point 0.
pub fn transpile_iterator(i: usize) -> (r: String)
    ensures
        r@ == pointer_statement(i),
{
    let mut r = String::new();
    r.append("let i: usize = ");
    push_digits(&mut r, i as u64);
    r.append(";");
    r
}

fn push_output_line(r: &mut String, output: &[i64])
    ensures
        final(r)@ == old(r)@ + output_line(output@),
{
    if output.len() > 0 {
        r.append("    ");
        let line = transpile_output(output);
        r.append(line.as_str());
        r.append("\n");
    } else {
        assert(old(r)@ + Seq::<char>::empty() =~= old(r)@);
    }
}

/// Evaluates `code` on `input` and writes a standalone program: for a run
/// that completed, one that prints the captured output; for a run that
/// suspended for want of input, one that prints it and then continues the run
/// where it stopped, reading further input from the terminal.
pub fn transpile(code: Vec<i64>, input: Vec<i64>) -> (r: Result<String, Error>)
    ensures
        ({
            let (m, status) = run(start(code@, 0), input@, STEP_LIMIT as nat);
            match r {
                Err(e) => status == Status::Failed(e),
                Ok(text) => {
                    &&& !(status is Failed)
                    &&& status is Completed ==> text@ == printer_program(m.output)
                    &&& !(status is Completed) ==> text@ == resuming_program(m.output, m.mem, m.ip)
                },
            }
        }),
{
    let results = eval(code, input)?;
    let mut r = String::new();
    if results.completed {
        r.append("fn main() {\n");
        push_output_line(&mut r, results.output.as_slice());
        r.append("}\n");
    } else {
        r.append(RUNTIME);
        r.append("\nfn main() -> Result<(), Failure> {\n");
        push_output_line(&mut r, results.output.as_slice());
        r.append("    ");
        let declaration = transpile_code(results.code.as_slice());
        r.append(declaration.as_str());
        r.append("\n    ");
        let pointer = transpile_iterator(results.run_code);
        r.append(pointer.as_str());
        r.append("\n    run(&mut code, i).map_err(Failure)\n}\n");
    }
    Ok(r)
}

/// The text a Rust string literal with body `s` stands for, for the escapes
/// `\n`, `\\` and `\"`; any other character stands for itself.
pub open spec fn unescape(s: Seq<char>) -> Seq<char>
    decreases s.len(),
{
    if s.len() >= 2 && s[0] == '\\' && (s[1] == 'n' || s[1] == '\\' || s[1] == '"') {
        seq![if s[1] == 'n' { '\n' } else { s[1] }] + unescape(s.skip(2))
    } else if s.len() >= 1 {
        seq![s[0]] + unescape(s.drop_first())
    } else {
        s
    }
}

proof fn lemma_unescape_plain(a: Seq<char>, t: Seq<char>)
    requires
        !a.contains('\\'),
    ensures
        unescape(a + t) == a + unescape(t),
    decreases a.len(),
{
    if a.len() > 0 {
        let rest = a.drop_first();
        assert(a[0] != '\\') by {
            if a[0] == '\\' {
                assert(a.contains('\\'));
            }
        }
        assert(!rest.contains('\\')) by {
            if rest.contains('\\') {
                let k = choose|k: int| 0 <= k < rest.len() && rest[k] == '\\';
                assert(a[k + 1] == '\\');
            }
        }
        lemma_unescape_plain(rest, t);
        assert((a + t).drop_first() =~= rest + t);
        assert(seq![a[0]] + (rest + unescape(t)) =~= a + unescape(t));
    } else {
        assert(a + t =~= t);
        assert(a + unescape(t) =~= unescape(t));
    }
}

proof fn lemma_unescape_lines(parts: Seq<Seq<char>>)
    requires
        parts.len() >= 1,
        forall|i: int| 0 <= i < parts.len() ==> !(#[trigger] parts[i]).contains('\\'),
    ensures
        unescape(join(parts, "\\n"@)) == join(parts, seq!['\n']),
    decreases parts.len(),
{
    reveal_strlit("\\n");
    let first = parts[0];
    if parts.len() == 1 {
        lemma_unescape_plain(first, Seq::empty());
        assert(first + Seq::<char>::empty() =~= first);
        assert(unescape(Seq::<char>::empty()) =~= Seq::<char>::empty());
    } else {
        let rest = parts.drop_first();
        assert forall|i: int| 0 <= i < rest.len() implies !(#[trigger] rest[i]).contains('\\') by {
            assert(rest[i] == parts[i + 1]);
        }
        lemma_unescape_lines(rest);
        let tail = "\\n"@ + join(rest, "\\n"@);
        assert(join(parts, "\\n"@) =~= first + tail);
        lemma_unescape_plain(first, tail);
        assert(tail.skip(2) =~= join(rest, "\\n"@));
        assert(unescape(tail) =~= seq!['\n'] + join(rest, seq!['\n']));
        assert(join(parts, seq!['\n']) =~= first + (seq!['\n'] + join(rest, seq!['\n'])));
    }
}

/// The program written for a completed run prints exactly the captured output
/// and holds nothing of the machine's state: with no output, `main` is empty;
/// otherwise it is one `println!` whose literal stands for the output values
/// in order, one per line, each line reading back as its value.
pub proof fn lemma_printer_prints_output(output: Seq<i64>)
    ensures
        output.len() == 0 ==> printer_program(output) == "fn main() {\n"@ + "}\n"@,
        output.len() > 0 ==> printer_program(output) == "fn main() {\n"@ + "    "@
            + "println!(\""@ + join(decimals(output), "\\n"@) + "\");"@ + "\n"@ + "}\n"@,
        output.len() > 0 ==> ({
            let printed = unescape(join(decimals(output), "\\n"@));
            &&& printed == join(decimals(output), seq!['\n'])
            &&& fields(printed, '\n').len() == output.len()
            &&& forall|i: int|
                0 <= i < output.len() ==> token_value(#[trigger] fields(printed, '\n')[i]) == Some(
                    output[i],
                )
        }),
{
    if output.len() == 0 {
        assert("fn main() {\n"@ + Seq::<char>::empty() =~= "fn main() {\n"@);
    } else {
        lemma_split_decimals(output, '\n');
        let parts = decimals(output);
        assert forall|i: int| 0 <= i < parts.len() implies !(#[trigger] parts[i]).contains('\\') by {
            if parts[i].contains('\\') {
                let k = choose|k: int| 0 <= k < parts[i].len() && parts[i][k] == '\\';
                assert(is_digit(parts[i][k]) || parts[i][k] == '-');
            }
        }
        lemma_unescape_lines(parts);
    }
}

} // verus!
