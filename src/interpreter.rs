//! Decoding and executing Intcode instructions.
use vstd::prelude::*;

use crate::error::Error;

verus! {

/// The two-digit operation code of an instruction word: its remainder by 100,
/// carrying the sign of the word as Rust's `%` does.
pub open spec fn opcode_of(word: i64) -> int {
    if word >= 0 {
        word as int % 100
    } else {
        -((-(word as int)) % 100)
    }
}

/// The mode digit that sits at `scale` (100, 1000 or 10000) in a word:
/// `word / scale % 10` with Rust's division and remainder, which round toward
/// zero (so a negative word has non-positive digits).
pub open spec fn mode_digit(word: i64, scale: int) -> int {
    if word >= 0 {
        (word as int / scale) % 10
    } else {
        -(((-(word as int)) / scale) % 10)
    }
}

/// Where a cursor at `at` stands after consuming up to `count` words of a
/// memory of length `len`: it stops at the end of memory and does not move
/// when it is already there.
pub open spec fn cursor_after(at: int, count: int, len: int) -> int {
    if at >= len {
        at
    } else if at + count <= len {
        at + count
    } else {
        len
    }
}

/// The zero-based operand index that an operand-resolution fault names.
pub open spec fn failing_operand(e: Error) -> int {
    match e {
        Error::MissingParameter { parameter, .. } => parameter as int,
        Error::NegativePositionalParameter { parameter, .. } => parameter as int,
        Error::InvalidParameterMode { parameter, .. } => parameter as int,
        _ => 0,
    }
}

/// A resolved operand: a memory index (mode 0) or a literal value (mode 1).
#[derive(Clone, Copy, Debug)]
pub enum Parameter {
    Position(usize),
    Immediate(i64),
}

/// Resolves the operand word at `at` in mode `mode`, as operand `n` of `opcode`.
pub open spec fn parameter_at(mem: Seq<i64>, at: int, mode: int, n: u8, opcode: i64) -> Result<
    Parameter,
    Error,
> {
    if at >= mem.len() {
        Err(Error::MissingParameter { parameter: n, opcode, position: at as usize })
    } else if mode == 0 {
        if mem[at] < 0 || mem[at] > usize::MAX {
            Err(
                Error::NegativePositionalParameter {
                    value: mem[at],
                    parameter: n,
                    opcode,
                    position: (at + 1) as usize,
                },
            )
        } else {
            Ok(Parameter::Position(mem[at] as usize))
        }
    } else if mode == 1 {
        Ok(Parameter::Immediate(mem[at]))
    } else {
        Err(
            Error::InvalidParameterMode {
                mode: mode as i64,
                parameter: n,
                opcode,
                position: (at + 1) as usize,
            },
        )
    }
}

/// Resolves a write target, which must be in position mode.
pub open spec fn target_at(mem: Seq<i64>, at: int, mode: int, n: u8, opcode: i64) -> Result<
    Parameter,
    Error,
> {
    match parameter_at(mem, at, mode, n, opcode) {
        Ok(Parameter::Immediate(_)) => Err(
            Error::InvalidParameterMode {
                mode: mode as i64,
                parameter: n,
                opcode,
                position: (at + 1) as usize,
            },
        ),
        other => other,
    }
}

/// The operands of a three-operand instruction whose word is `word`.
pub open spec fn three_operands(mem: Seq<i64>, at: int, word: i64, opcode: i64) -> Result<
    (Parameter, Parameter, Parameter),
    Error,
> {
    match parameter_at(mem, at, mode_digit(word, 100), 0, opcode) {
        Err(e) => Err(e),
        Ok(n1) => match parameter_at(mem, at + 1, mode_digit(word, 1000), 1, opcode) {
            Err(e) => Err(e),
            Ok(n2) => match target_at(mem, at + 2, mode_digit(word, 10000), 2, opcode) {
                Err(e) => Err(e),
                Ok(to) => Ok((n1, n2, to)),
            },
        },
    }
}

/// The operands of a jump instruction whose word is `word`.
pub open spec fn two_operands(mem: Seq<i64>, at: int, word: i64, opcode: i64) -> Result<
    (Parameter, Parameter),
    Error,
> {
    match parameter_at(mem, at, mode_digit(word, 100), 0, opcode) {
        Err(e) => Err(e),
        Ok(test) => match parameter_at(mem, at + 1, mode_digit(word, 1000), 1, opcode) {
            Err(e) => Err(e),
            Ok(goto) => Ok((test, goto)),
        },
    }
}

impl Parameter {
    /// Reads the operand word at `*i`, advancing `*i` past it.
    pub fn from_code(code: &Vec<i64>, i: &mut usize, mode: i64, n: u8, opcode: i64) -> (r: Result<
        Parameter,
        Error,
    >)
        ensures
            r == parameter_at(code@, *old(i) as int, mode as int, n, opcode),
            *final(i) == cursor_after(*old(i) as int, 1, code.len() as int),
    {
        if *i >= code.len() {
            return Err(Error::MissingParameter { parameter: n, opcode, position: *i });
        }
        let p = code[*i];
        *i = *i + 1;
        if mode == 0 {
            if p < 0 || p as u64 > usize::MAX as u64 {
                Err(
                    Error::NegativePositionalParameter {
                        value: p,
                        parameter: n,
                        opcode,
                        position: *i,
                    },
                )
            } else {
                Ok(Parameter::Position(p as usize))
            }
        } else if mode == 1 {
            Ok(Parameter::Immediate(p))
        } else {
            Err(Error::InvalidParameterMode { mode, parameter: n, opcode, position: *i })
        }
    }

    /// Reads a write-target operand, which must be in position mode.
    pub fn positional_from_code(
        code: &Vec<i64>,
        i: &mut usize,
        mode: i64,
        n: u8,
        opcode: i64,
    ) -> (r: Result<Parameter, Error>)
        ensures
            r == target_at(code@, *old(i) as int, mode as int, n, opcode),
            *final(i) == cursor_after(*old(i) as int, 1, code.len() as int),
    {
        let p = Self::from_code(code, i, mode, n, opcode)?;
        match p {
            Parameter::Position(_) => Ok(p),
            Parameter::Immediate(_) => Err(
                Error::InvalidParameterMode { mode, parameter: n, opcode, position: *i },
            ),
        }
    }

    /// The operands of an Add, Multiply, LessThan or Equals instruction.
    pub fn arithmetic(code: &Vec<i64>, i: &mut usize, opcode: i64, modes_and_opcode: i64) -> (r:
        Result<(Parameter, Parameter, Parameter), Error>)
        ensures
            r == three_operands(code@, *old(i) as int, modes_and_opcode, opcode),
            r is Ok ==> *final(i) == *old(i) + 3,
            r matches Err(e) ==> *final(i) == cursor_after(
                *old(i) as int,
                failing_operand(e) + 1,
                code.len() as int,
            ),
    {
        let n1 = Self::from_code(code, i, modes_and_opcode / 100 % 10, 0, opcode)?;
        let n2 = Self::from_code(code, i, modes_and_opcode / 1000 % 10, 1, opcode)?;
        let to = Self::positional_from_code(code, i, modes_and_opcode / 10000 % 10, 2, opcode)?;
        Ok((n1, n2, to))
    }

    /// The operands of a JumpIfTrue or JumpIfFalse instruction.
    pub fn jump(code: &Vec<i64>, i: &mut usize, opcode: i64, modes_and_opcode: i64) -> (r: Result<
        (Parameter, Parameter),
        Error,
    >)
        ensures
            r == two_operands(code@, *old(i) as int, modes_and_opcode, opcode),
            r is Ok ==> *final(i) == *old(i) + 2,
            r matches Err(e) ==> *final(i) == cursor_after(
                *old(i) as int,
                failing_operand(e) + 1,
                code.len() as int,
            ),
    {
        let test = Self::from_code(code, i, modes_and_opcode / 100 % 10, 0, opcode)?;
        let goto = Self::from_code(code, i, modes_and_opcode / 1000 % 10, 1, opcode)?;
        Ok((test, goto))
    }
}

/// A decoded instruction with its resolved operands.
#[derive(Clone, Copy, Debug)]
pub enum Instruction {
    Add { n1: Parameter, n2: Parameter, to: Parameter },
    Multiply { n1: Parameter, n2: Parameter, to: Parameter },
    Input { to: Parameter },
    Output { from: Parameter },
    JumpIfTrue { test: Parameter, goto: Parameter },
    JumpIfFalse { test: Parameter, goto: Parameter },
    LessThan { n1: Parameter, n2: Parameter, to: Parameter },
    Equals { n1: Parameter, n2: Parameter, to: Parameter },
    Halt,
    /// No word is left at the instruction pointer.
    End,
}

/// The instruction at `ip` and the index just past its last operand word.
pub open spec fn decode(mem: Seq<i64>, ip: int) -> Result<(Instruction, int), Error> {
    if ip >= mem.len() {
        Ok((Instruction::End, ip))
    } else {
        let word = mem[ip];
        let opcode = opcode_of(word) as i64;
        let at = ip + 1;
        if opcode == 1 || opcode == 2 || opcode == 7 || opcode == 8 {
            match three_operands(mem, at, word, opcode) {
                Err(e) => Err(e),
                Ok((n1, n2, to)) => Ok(
                    (
                        if opcode == 1 {
                            Instruction::Add { n1, n2, to }
                        } else if opcode == 2 {
                            Instruction::Multiply { n1, n2, to }
                        } else if opcode == 7 {
                            Instruction::LessThan { n1, n2, to }
                        } else {
                            Instruction::Equals { n1, n2, to }
                        },
                        at + 3,
                    ),
                ),
            }
        } else if opcode == 3 {
            match target_at(mem, at, mode_digit(word, 100), 0, opcode) {
                Err(e) => Err(e),
                Ok(to) => Ok((Instruction::Input { to }, at + 1)),
            }
        } else if opcode == 4 {
            match parameter_at(mem, at, mode_digit(word, 100), 0, opcode) {
                Err(e) => Err(e),
                Ok(from) => Ok((Instruction::Output { from }, at + 1)),
            }
        } else if opcode == 5 || opcode == 6 {
            match two_operands(mem, at, word, opcode) {
                Err(e) => Err(e),
                Ok((test, goto)) => Ok(
                    (
                        if opcode == 5 {
                            Instruction::JumpIfTrue { test, goto }
                        } else {
                            Instruction::JumpIfFalse { test, goto }
                        },
                        at + 2,
                    ),
                ),
            }
        } else if opcode == 99 {
            Ok((Instruction::Halt, at))
        } else {
            Err(Error::InvalidOpcode { opcode, position: at as usize })
        }
    }
}

impl Instruction {
    /// Decodes the instruction at `*i`, advancing `*i` past its operand words.
    pub fn from_code(code: &Vec<i64>, i: &mut usize) -> (r: Result<Instruction, Error>)
        ensures
            match decode(code@, *old(i) as int) {
                Ok((ins, next)) => r == Ok::<Instruction, Error>(ins) && *final(i) == next,
                Err(e) => r == Err::<Instruction, Error>(e),
            },
    {
        if *i >= code.len() {
            return Ok(Instruction::End);
        }
        let modes_and_opcode = code[*i];
        *i = *i + 1;
        let opcode = modes_and_opcode % 100;
        if opcode == 1 || opcode == 2 || opcode == 7 || opcode == 8 {
            let (n1, n2, to) = Parameter::arithmetic(code, i, opcode, modes_and_opcode)?;
            if opcode == 1 {
                Ok(Instruction::Add { n1, n2, to })
            } else if opcode == 2 {
                Ok(Instruction::Multiply { n1, n2, to })
            } else if opcode == 7 {
                Ok(Instruction::LessThan { n1, n2, to })
            } else {
                Ok(Instruction::Equals { n1, n2, to })
            }
        } else if opcode == 3 {
            let to = Parameter::positional_from_code(code, i, modes_and_opcode / 100 % 10, 0, opcode)?;
            Ok(Instruction::Input { to })
        } else if opcode == 4 {
            let from = Parameter::from_code(code, i, modes_and_opcode / 100 % 10, 0, opcode)?;
            Ok(Instruction::Output { from })
        } else if opcode == 5 || opcode == 6 {
            let (test, goto) = Parameter::jump(code, i, opcode, modes_and_opcode)?;
            if opcode == 5 {
                Ok(Instruction::JumpIfTrue { test, goto })
            } else {
                Ok(Instruction::JumpIfFalse { test, goto })
            }
        } else if opcode == 99 {
            Ok(Instruction::Halt)
        } else {
            Err(Error::InvalidOpcode { opcode, position: *i })
        }
    }
}

/// The value an operand denotes; a position past the end of memory is a fault.
pub open spec fn read(mem: Seq<i64>, p: Parameter, n: u8, opcode: i64, position: usize) -> Result<
    i64,
    Error,
> {
    match p {
        Parameter::Position(index) => if index < mem.len() {
            Ok(mem[index as int])
        } else {
            Err(Error::PositionOutOfRange { index, parameter: n, opcode, position })
        },
        Parameter::Immediate(v) => Ok(v),
    }
}

/// The cell a write-target operand names; it must lie inside memory.
pub open spec fn cell(mem: Seq<i64>, p: Parameter, n: u8, opcode: i64, position: usize) -> Result<
    usize,
    Error,
> {
    match p {
        Parameter::Position(index) => if index < mem.len() {
            Ok(index)
        } else {
            Err(Error::PositionOutOfRange { index, parameter: n, opcode, position })
        },
        Parameter::Immediate(_) => Err(
            Error::InvalidParameterMode { mode: 1, parameter: n, opcode, position },
        ),
    }
}

/// The two values and the target cell of a three-operand instruction, in that order.
pub open spec fn binary_operands(
    mem: Seq<i64>,
    n1: Parameter,
    n2: Parameter,
    to: Parameter,
    opcode: i64,
    position: usize,
) -> Result<(i64, i64, usize), Error> {
    match read(mem, n1, 0, opcode, position) {
        Err(e) => Err(e),
        Ok(a) => match read(mem, n2, 1, opcode, position) {
            Err(e) => Err(e),
            Ok(b) => match cell(mem, to, 2, opcode, position) {
                Err(e) => Err(e),
                Ok(t) => Ok((a, b, t)),
            },
        },
    }
}

/// What a three-operand instruction stores: sums and products wrap around at
/// 64 bits, comparisons store 1 or 0.
pub open spec fn combine(opcode: i64, a: i64, b: i64) -> i64 {
    if opcode == 1 {
        a.wrapping_add(b)
    } else if opcode == 2 {
        a.wrapping_mul(b)
    } else if opcode == 7 {
        if a < b { 1 } else { 0 }
    } else {
        if a == b { 1 } else { 0 }
    }
}

/// Memory after a three-operand instruction.
pub open spec fn store(
    mem: Seq<i64>,
    n1: Parameter,
    n2: Parameter,
    to: Parameter,
    opcode: i64,
    position: usize,
) -> Result<Seq<i64>, Error> {
    match binary_operands(mem, n1, n2, to, opcode, position) {
        Err(e) => Err(e),
        Ok((a, b, t)) => Ok(mem.update(t as int, combine(opcode, a, b))),
    }
}

/// The instruction pointer after a conditional jump whose operands were read
/// with the pointer at `ip`; `when` says whether a non-zero test jumps.
pub open spec fn jump_target(
    mem: Seq<i64>,
    test: Parameter,
    goto: Parameter,
    when: bool,
    opcode: i64,
    ip: usize,
) -> Result<usize, Error> {
    match read(mem, test, 0, opcode, ip) {
        Err(e) => Err(e),
        Ok(t) => if (t != 0) == when {
            match read(mem, goto, 1, opcode, ip) {
                Err(e) => Err(e),
                Ok(g) => if g < 0 || g > usize::MAX {
                    Err(
                        Error::NegativePositionalParameter {
                            value: g,
                            parameter: 1,
                            opcode,
                            position: ip,
                        },
                    )
                } else {
                    Ok(g as usize)
                },
            }
        } else {
            Ok(ip)
        },
    }
}

impl Parameter {
    /// The value the operand denotes, found at the time of execution: a
    /// position past the end of memory is a fault.
    pub fn value(&self, code: &Vec<i64>, n: u8, opcode: i64, position: usize) -> (r: Result<
        i64,
        Error,
    >)
        ensures
            r == read(code@, *self, n, opcode, position),
    {
        match *self {
            Parameter::Position(index) => if index < code.len() {
                Ok(code[index])
            } else {
                Err(Error::PositionOutOfRange { index, parameter: n, opcode, position })
            },
            Parameter::Immediate(v) => Ok(v),
        }
    }

    /// The memory index of a position-mode operand.
    pub fn index(&self) -> (r: Option<usize>)
        ensures
            r == (match *self {
                Parameter::Position(p) => Some(p),
                Parameter::Immediate(_) => None::<usize>,
            }),
    {
        match *self {
            Parameter::Position(p) => Some(p),
            Parameter::Immediate(_) => None,
        }
    }

    /// The cell a write-target operand names.
    fn cell(&self, code: &Vec<i64>, n: u8, opcode: i64, position: usize) -> (r: Result<usize, Error>)
        ensures
            r == cell(code@, *self, n, opcode, position),
    {
        match self.index() {
            Some(index) => if index < code.len() {
                Ok(index)
            } else {
                Err(Error::PositionOutOfRange { index, parameter: n, opcode, position })
            },
            None => Err(Error::InvalidParameterMode { mode: 1, parameter: n, opcode, position }),
        }
    }
}

fn operands(
    code: &Vec<i64>,
    n1: Parameter,
    n2: Parameter,
    to: Parameter,
    opcode: i64,
    position: usize,
) -> (r: Result<(i64, i64, usize), Error>)
    ensures
        r == binary_operands(code@, n1, n2, to, opcode, position),
{
    let a = n1.value(code, 0, opcode, position)?;
    let b = n2.value(code, 1, opcode, position)?;
    let t = to.cell(code, 2, opcode, position)?;
    Ok((a, b, t))
}

/// Stores `n1 + n2` (wrapping) in `to`.
pub fn add(code: &mut Vec<i64>, n1: Parameter, n2: Parameter, to: Parameter, position: usize) -> (r:
    Result<(), Error>)
    ensures
        match store(old(code)@, n1, n2, to, 1, position) {
            Ok(mem) => r is Ok && final(code)@ == mem,
            Err(e) => r == Err::<(), Error>(e) && final(code)@ == old(code)@,
        },
{
    let (a, b, t) = operands(code, n1, n2, to, 1, position)?;
    code.set(t, a.wrapping_add(b));
    Ok(())
}

/// Stores `n1 * n2` (wrapping) in `to`.
pub fn multiply(code: &mut Vec<i64>, n1: Parameter, n2: Parameter, to: Parameter, position: usize) -> (r:
    Result<(), Error>)
    ensures
        match store(old(code)@, n1, n2, to, 2, position) {
            Ok(mem) => r is Ok && final(code)@ == mem,
            Err(e) => r == Err::<(), Error>(e) && final(code)@ == old(code)@,
        },
{
    let (a, b, t) = operands(code, n1, n2, to, 2, position)?;
    code.set(t, a.wrapping_mul(b));
    Ok(())
}

/// Stores 1 in `to` if `n1 < n2`, else 0.
pub fn less_than(code: &mut Vec<i64>, n1: Parameter, n2: Parameter, to: Parameter, position: usize) -> (r:
    Result<(), Error>)
    ensures
        match store(old(code)@, n1, n2, to, 7, position) {
            Ok(mem) => r is Ok && final(code)@ == mem,
            Err(e) => r == Err::<(), Error>(e) && final(code)@ == old(code)@,
        },
{
    let (a, b, t) = operands(code, n1, n2, to, 7, position)?;
    if a < b {
        code.set(t, 1);
    } else {
        code.set(t, 0);
    }
    Ok(())
}

/// Stores 1 in `to` if `n1 == n2`, else 0.
pub fn equals(code: &mut Vec<i64>, n1: Parameter, n2: Parameter, to: Parameter, position: usize) -> (r:
    Result<(), Error>)
    ensures
        match store(old(code)@, n1, n2, to, 8, position) {
            Ok(mem) => r is Ok && final(code)@ == mem,
            Err(e) => r == Err::<(), Error>(e) && final(code)@ == old(code)@,
        },
{
    let (a, b, t) = operands(code, n1, n2, to, 8, position)?;
    if a == b {
        code.set(t, 1);
    } else {
        code.set(t, 0);
    }
    Ok(())
}

fn conditional_jump(
    code: &Vec<i64>,
    i: &mut usize,
    test: Parameter,
    goto: Parameter,
    when: bool,
    opcode: i64,
) -> (r: Result<(), Error>)
    ensures
        match jump_target(code@, test, goto, when, opcode, *old(i)) {
            Ok(next) => r is Ok && *final(i) == next,
            Err(e) => r == Err::<(), Error>(e) && *final(i) == *old(i),
        },
{
    let t = test.value(code, 0, opcode, *i)?;
    if (t != 0) == when {
        let g = goto.value(code, 1, opcode, *i)?;
        if g < 0 || g as u64 > usize::MAX as u64 {
            return Err(
                Error::NegativePositionalParameter { value: g, parameter: 1, opcode, position: *i },
            );
        }
        *i = g as usize;
    }
    Ok(())
}

/// Moves `*i` to `goto` when `test` is non-zero.
pub fn jump_if_true(code: &Vec<i64>, i: &mut usize, test: Parameter, goto: Parameter) -> (r: Result<
    (),
    Error,
>)
    ensures
        match jump_target(code@, test, goto, true, 5, *old(i)) {
            Ok(next) => r is Ok && *final(i) == next,
            Err(e) => r == Err::<(), Error>(e) && *final(i) == *old(i),
        },
{
    conditional_jump(code, i, test, goto, true, 5)
}

/// Moves `*i` to `goto` when `test` is zero.
pub fn jump_if_false(code: &Vec<i64>, i: &mut usize, test: Parameter, goto: Parameter) -> (r: Result<
    (),
    Error,
>)
    ensures
        match jump_target(code@, test, goto, false, 6, *old(i)) {
            Ok(next) => r is Ok && *final(i) == next,
            Err(e) => r == Err::<(), Error>(e) && *final(i) == *old(i),
        },
{
    conditional_jump(code, i, test, goto, false, 6)
}

/// What one executed instruction did, besides changing memory and the pointer.
#[derive(Clone, Copy, Debug, PartialEq, Eq)]
pub enum Effect {
    /// Nothing beyond memory and the instruction pointer.
    Continue,
    /// The supplied input value was stored.
    Consumed,
    /// A value was emitted.
    Output(i64),
    /// An Input instruction found no value; the pointer stays on it.
    Suspend,
    /// Halt or End was reached.
    Halt,
}

/// One instruction at `ip`: the new memory, the new pointer and the effect.
/// `input` is the value an Input instruction would take, if there is one.
#[verifier::opaque]
pub open spec fn step_spec(mem: Seq<i64>, ip: usize, input: Option<i64>) -> Result<
    (Seq<i64>, usize, Effect),
    Error,
> {
    match decode(mem, ip as int) {
        Err(e) => Err(e),
        Ok((ins, after)) => {
            let next = after as usize;
            match ins {
                Instruction::Add { n1, n2, to } => match store(mem, n1, n2, to, 1, next) {
                    Err(e) => Err(e),
                    Ok(m) => Ok((m, next, Effect::Continue)),
                },
                Instruction::Multiply { n1, n2, to } => match store(mem, n1, n2, to, 2, next) {
                    Err(e) => Err(e),
                    Ok(m) => Ok((m, next, Effect::Continue)),
                },
                Instruction::LessThan { n1, n2, to } => match store(mem, n1, n2, to, 7, next) {
                    Err(e) => Err(e),
                    Ok(m) => Ok((m, next, Effect::Continue)),
                },
                Instruction::Equals { n1, n2, to } => match store(mem, n1, n2, to, 8, next) {
                    Err(e) => Err(e),
                    Ok(m) => Ok((m, next, Effect::Continue)),
                },
                Instruction::Input { to } => match input {
                    None => Ok((mem, ip, Effect::Suspend)),
                    Some(v) => match cell(mem, to, 0, 3, next) {
                        Err(e) => Err(e),
                        Ok(t) => Ok((mem.update(t as int, v), next, Effect::Consumed)),
                    },
                },
                Instruction::Output { from } => match read(mem, from, 0, 4, next) {
                    Err(e) => Err(e),
                    Ok(v) => Ok((mem, next, Effect::Output(v))),
                },
                Instruction::JumpIfTrue { test, goto } => match jump_target(
                    mem,
                    test,
                    goto,
                    true,
                    5,
                    next,
                ) {
                    Err(e) => Err(e),
                    Ok(j) => Ok((mem, j, Effect::Continue)),
                },
                Instruction::JumpIfFalse { test, goto } => match jump_target(
                    mem,
                    test,
                    goto,
                    false,
                    6,
                    next,
                ) {
                    Err(e) => Err(e),
                    Ok(j) => Ok((mem, j, Effect::Continue)),
                },
                Instruction::Halt => Ok((mem, next, Effect::Halt)),
                Instruction::End => Ok((mem, next, Effect::Halt)),
            }
        },
    }
}

/// Only an Input instruction looks at the offered value: it takes a value that
/// is there, and suspends, changing nothing, when none is.
pub proof fn lemma_step_input(mem: Seq<i64>, ip: usize, input: Option<i64>)
    ensures
        step_spec(mem, ip, input) matches Ok((m, next, Effect::Suspend)) ==> m == mem && next == ip
            && input is None,
        step_spec(mem, ip, input) matches Ok((_, _, Effect::Consumed)) ==> input is Some,
        !(step_spec(mem, ip, None) matches Ok((_, _, Effect::Suspend))) ==> step_spec(mem, ip, input)
            == step_spec(mem, ip, None),
{
    reveal(step_spec);
}

/// Executes the instruction at `*ip`. `input` is offered to an Input
/// instruction and ignored by every other one.
pub fn step(code: &mut Vec<i64>, ip: &mut usize, input: Option<i64>) -> (r: Result<Effect, Error>)
    ensures
        match step_spec(old(code)@, *old(ip), input) {
            Ok((mem, next, effect)) => r == Ok::<Effect, Error>(effect) && final(code)@ == mem
                && *final(ip) == next,
            Err(e) => r == Err::<Effect, Error>(e),
        },
{
    reveal(step_spec);
    let start = *ip;
    let mut i = *ip;
    let instruction = Instruction::from_code(code, &mut i)?;
    let effect = match instruction {
        Instruction::Add { n1, n2, to } => {
            crate::interpreter::add(code, n1, n2, to, i)?;
            Effect::Continue
        },
        Instruction::Multiply { n1, n2, to } => {
            multiply(code, n1, n2, to, i)?;
            Effect::Continue
        },
        Instruction::LessThan { n1, n2, to } => {
            less_than(code, n1, n2, to, i)?;
            Effect::Continue
        },
        Instruction::Equals { n1, n2, to } => {
            equals(code, n1, n2, to, i)?;
            Effect::Continue
        },
        Instruction::Input { to } => match input {
            None => {
                i = start;
                Effect::Suspend
            },
            Some(v) => {
                let t = to.cell(code, 0, 3, i)?;
                code.set(t, v);
                Effect::Consumed
            },
        },
        Instruction::Output { from } => Effect::Output(from.value(code, 0, 4, i)?),
        Instruction::JumpIfTrue { test, goto } => {
            jump_if_true(code, &mut i, test, goto)?;
            Effect::Continue
        },
        Instruction::JumpIfFalse { test, goto } => {
            jump_if_false(code, &mut i, test, goto)?;
            Effect::Continue
        },
        Instruction::Halt => Effect::Halt,
        Instruction::End => Effect::Halt,
    };
    *ip = i;
    Ok(effect)
}

/// The state of a run: memory, instruction pointer, number of input values
/// taken, and the values emitted so far.
pub struct Machine {
    pub mem: Seq<i64>,
    pub ip: usize,
    pub used: nat,
    pub output: Seq<i64>,
}

/// How a run stands.
pub enum Status {
    Running,
    /// Halt or End was reached.
    Completed,
    /// An Input instruction found no value left.
    Suspended,
    Failed(Error),
}

/// The input value at the cursor, if any is left.
pub open spec fn next_input(input: Seq<i64>, used: nat) -> Option<i64> {
    if used < input.len() {
        Some(input[used as int])
    } else {
        None
    }
}

/// The machine at the start of a run from `ip`.
pub open spec fn start(mem: Seq<i64>, ip: usize) -> Machine {
    Machine { mem, ip, used: 0, output: Seq::empty() }
}

/// Runs at most `fuel` instructions on the finite input `input`.
pub open spec fn run(m: Machine, input: Seq<i64>, fuel: nat) -> (Machine, Status)
    decreases fuel,
{
    if fuel == 0 {
        (m, Status::Running)
    } else {
        match step_spec(m.mem, m.ip, next_input(input, m.used)) {
            Err(e) => (m, Status::Failed(e)),
            Ok((mem, ip, effect)) => match effect {
                Effect::Halt => (Machine { mem, ip, ..m }, Status::Completed),
                Effect::Suspend => (m, Status::Suspended),
                Effect::Consumed => run(Machine { mem, ip, used: m.used + 1, ..m }, input, (fuel - 1) as nat),
                Effect::Output(v) => run(
                    Machine { mem, ip, output: m.output.push(v), ..m },
                    input,
                    (fuel - 1) as nat,
                ),
                Effect::Continue => run(Machine { mem, ip, ..m }, input, (fuel - 1) as nat),
            },
        }
    }
}

/// `m` continued after an earlier part of a run that took `taken` input values
/// and emitted `before`.
pub open spec fn after(m: Machine, taken: nat, before: Seq<i64>) -> Machine {
    Machine { mem: m.mem, ip: m.ip, used: taken + m.used, output: before + m.output }
}

/// Once a run has stopped, more fuel changes nothing.
pub proof fn lemma_run_stopped(m: Machine, input: Seq<i64>, n: nat, more: nat)
    requires
        !(run(m, input, n).1 is Running),
    ensures
        run(m, input, n + more) == run(m, input, n),
    decreases n,
{
    if n > 0 {
        match step_spec(m.mem, m.ip, next_input(input, m.used)) {
            Err(_) => {},
            Ok((mem, ip, effect)) => match effect {
                Effect::Consumed => {
                    lemma_run_stopped(Machine { mem, ip, used: m.used + 1, ..m }, input, (n - 1) as nat, more);
                    assert((n + more - 1) as nat == (n - 1) as nat + more);
                },
                Effect::Output(v) => {
                    lemma_run_stopped(Machine { mem, ip, output: m.output.push(v), ..m }, input, (n - 1) as nat, more);
                    assert((n + more - 1) as nat == (n - 1) as nat + more);
                },
                Effect::Continue => {
                    lemma_run_stopped(Machine { mem, ip, ..m }, input, (n - 1) as nat, more);
                    assert((n + more - 1) as nat == (n - 1) as nat + more);
                },
                _ => {},
            },
        }
    }
}

/// A run on `rest` behaves the same behind an input prefix that is used up and
/// output that is already there.
proof fn lemma_run_behind(m: Machine, prefix: Seq<i64>, rest: Seq<i64>, before: Seq<i64>, n: nat)
    ensures
        run(after(m, prefix.len(), before), prefix + rest, n) == (
            after(run(m, rest, n).0, prefix.len(), before),
            run(m, rest, n).1,
        ),
    decreases n,
{
    let shifted = after(m, prefix.len(), before);
    if n > 0 {
        assert(next_input(prefix + rest, shifted.used) == next_input(rest, m.used));
        match step_spec(m.mem, m.ip, next_input(rest, m.used)) {
            Err(_) => {},
            Ok((mem, ip, effect)) => match effect {
                Effect::Halt => {},
                Effect::Suspend => {},
                Effect::Consumed => {
                    let m2 = Machine { mem, ip, used: m.used + 1, ..m };
                    lemma_run_behind(m2, prefix, rest, before, (n - 1) as nat);
                    assert(Machine { mem, ip, used: shifted.used + 1, ..shifted } == after(
                        m2,
                        prefix.len(),
                        before,
                    ));
                },
                Effect::Output(v) => {
                    let m2 = Machine { mem, ip, output: m.output.push(v), ..m };
                    lemma_run_behind(m2, prefix, rest, before, (n - 1) as nat);
                    assert(shifted.output.push(v) =~= before + m.output.push(v));
                    assert(Machine { mem, ip, output: shifted.output.push(v), ..shifted } == after(
                        m2,
                        prefix.len(),
                        before,
                    ));
                },
                Effect::Continue => {
                    let m2 = Machine { mem, ip, ..m };
                    lemma_run_behind(m2, prefix, rest, before, (n - 1) as nat);
                    assert(Machine { mem, ip, ..shifted } == after(m2, prefix.len(), before));
                },
            },
        }
    }
}

proof fn lemma_resume_machine(m: Machine, first: Seq<i64>, rest: Seq<i64>, n1: nat, n2: nat)
    requires
        m.used <= first.len(),
        run(m, first, n1).1 is Suspended,
        !(run(start(run(m, first, n1).0.mem, run(m, first, n1).0.ip), rest, n2).1 is Running),
    ensures
        ({
            let s = run(m, first, n1).0;
            let t = run(start(s.mem, s.ip), rest, n2);
            &&& s.used == first.len()
            &&& run(m, first + rest, n1 + n2) == (after(t.0, s.used, s.output), t.1)
        }),
    decreases n1,
{
    let s = run(m, first, n1).0;
    let offered = next_input(first, m.used);
    lemma_step_input(m.mem, m.ip, offered);
    lemma_step_input(m.mem, m.ip, next_input(first + rest, m.used));
    if m.used < first.len() {
        assert(next_input(first + rest, m.used) == offered);
    }
    match step_spec(m.mem, m.ip, offered) {
        Err(_) => {},
        Ok((mem, ip, effect)) => match effect {
            Effect::Halt => {},
            Effect::Suspend => {
                let s0 = start(m.mem, m.ip);
                assert(after(s0, first.len(), m.output) == m) by {
                    assert(m.output + Seq::<i64>::empty() =~= m.output);
                }
                lemma_run_behind(s0, first, rest, m.output, n1 + n2);
                lemma_run_stopped(s0, rest, n2, n1);
                assert(n2 + n1 == n1 + n2);
            },
            Effect::Consumed => {
                lemma_resume_machine(Machine { mem, ip, used: m.used + 1, ..m }, first, rest, (n1 - 1) as nat, n2);
                assert((n1 + n2 - 1) as nat == (n1 - 1) as nat + n2);
            },
            Effect::Output(v) => {
                lemma_resume_machine(Machine { mem, ip, output: m.output.push(v), ..m }, first, rest, (n1 - 1) as nat, n2);
                assert((n1 + n2 - 1) as nat == (n1 - 1) as nat + n2);
            },
            Effect::Continue => {
                lemma_resume_machine(Machine { mem, ip, ..m }, first, rest, (n1 - 1) as nat, n2);
                assert((n1 + n2 - 1) as nat == (n1 - 1) as nat + n2);
            },
        },
    }
}

/// Suspension and resumption: a run on `first` that suspends has taken every
/// value of `first`. Resuming from its memory and pointer on `rest`, until that
/// run stops, ends exactly where one run on `first + rest` ends: same memory,
/// pointer and status, the inputs taken added up, and the output of the first
/// part followed by that of the second.
pub proof fn lemma_resume(code: Seq<i64>, ip: usize, first: Seq<i64>, rest: Seq<i64>, n1: nat, n2: nat)
    requires
        run(start(code, ip), first, n1).1 is Suspended,
        !(run(
            start(run(start(code, ip), first, n1).0.mem, run(start(code, ip), first, n1).0.ip),
            rest,
            n2,
        ).1 is Running),
    ensures
        ({
            let s = run(start(code, ip), first, n1).0;
            let t = run(start(s.mem, s.ip), rest, n2);
            &&& s.used == first.len()
            &&& run(start(code, ip), first + rest, n1 + n2) == (after(t.0, s.used, s.output), t.1)
        }),
{
    lemma_resume_machine(start(code, ip), first, rest, n1, n2);
}

proof fn lemma_suspended_machine(m: Machine, input: Seq<i64>, n: nat)
    requires
        m.used <= input.len(),
        run(m, input, n).1 is Suspended,
    ensures
        ({
            let s = run(m, input, n).0;
            &&& s.used == input.len()
            &&& step_spec(s.mem, s.ip, None) == Ok::<(Seq<i64>, usize, Effect), Error>(
                (s.mem, s.ip, Effect::Suspend),
            )
            &&& decode(s.mem, s.ip as int) matches Ok((Instruction::Input { .. }, _))
        }),
    decreases n,
{
    reveal(step_spec);
    let offered = next_input(input, m.used);
    match step_spec(m.mem, m.ip, offered) {
        Err(_) => {},
        Ok((mem, ip, effect)) => match effect {
            Effect::Consumed => {
                lemma_suspended_machine(Machine { mem, ip, used: m.used + 1, ..m }, input, (n - 1) as nat);
            },
            Effect::Output(v) => {
                lemma_suspended_machine(Machine { mem, ip, output: m.output.push(v), ..m }, input, (n - 1) as nat);
            },
            Effect::Continue => {
                lemma_suspended_machine(Machine { mem, ip, ..m }, input, (n - 1) as nat);
            },
            _ => {},
        },
    }
}

/// A run that suspends has taken every input value, one per Input
/// instruction executed, and stops on an Input instruction that it has not
/// begun: offered no value, that instruction changes neither memory nor the
/// pointer.
pub proof fn lemma_suspended(code: Seq<i64>, ip: usize, input: Seq<i64>, n: nat)
    requires
        run(start(code, ip), input, n).1 is Suspended,
    ensures
        ({
            let s = run(start(code, ip), input, n).0;
            &&& s.used == input.len()
            &&& step_spec(s.mem, s.ip, None) == Ok::<(Seq<i64>, usize, Effect), Error>(
                (s.mem, s.ip, Effect::Suspend),
            )
            &&& decode(s.mem, s.ip as int) matches Ok((Instruction::Input { .. }, _))
        }),
{
    lemma_suspended_machine(start(code, ip), input, n);
}

/// The most instructions one evaluation executes; far beyond any run that
/// could finish in practice.
pub const STEP_LIMIT: u64 = 0xffff_ffff_ffff_ffff;

/// The outcome of a batch evaluation.
#[derive(Debug)]
pub struct EvalResults {
    /// Memory when evaluation stopped.
    pub code: Vec<i64>,
    /// Every value emitted, in order.
    pub output: Vec<i64>,
    /// Whether Halt or End was reached. `false` after a suspension, and also
    /// if `STEP_LIMIT` instructions ran without the run stopping.
    pub completed: bool,
    /// Where execution resumes: the Input instruction that found no value (or
    /// the next instruction, had the step limit been reached).
    pub run_code: usize,
    /// How many input values were taken.
    pub used_input: usize,
}

/// Whether `r` reports the run `outcome`.
pub open spec fn reports(r: Result<EvalResults, Error>, outcome: (Machine, Status)) -> bool {
    let (m, status) = outcome;
    match r {
        Err(e) => status == Status::Failed(e),
        Ok(res) => {
            &&& !(status is Failed)
            &&& res.code@ == m.mem
            &&& res.output@ == m.output
            &&& res.completed == (status is Completed)
            &&& res.run_code == m.ip
            &&& res.used_input == m.used
        },
    }
}

/// A failed evaluation: the fault and every value emitted before it, in order.
#[derive(Debug)]
pub struct Failure {
    pub error: Error,
    pub output: Vec<i64>,
}

/// Whether `r` reports the run `outcome`, a failure together with its output.
pub open spec fn reports_failure(r: Result<EvalResults, Failure>, outcome: (Machine, Status)) -> bool {
    let (m, status) = outcome;
    match r {
        Err(f) => status == Status::Failed(f.error) && f.output@ == m.output,
        Ok(res) => reports(Ok(res), outcome),
    }
}

/// Evaluates `code` from instruction `ip` on the finite `input`, like
/// `eval_from`, but a failure also hands back the output produced before it.
#[verifier::loop_isolation(false)]
pub fn eval_with_output(code: Vec<i64>, ip: usize, input: Vec<i64>) -> (r: Result<
    EvalResults,
    Failure,
>)
    ensures
        reports_failure(r, run(start(code@, ip), input@, STEP_LIMIT as nat)),
{
    let mut code = code;
    let mut i = ip;
    let mut j: usize = 0;
    let mut output: Vec<i64> = Vec::new();
    let mut fuel: u64 = STEP_LIMIT;
    let ghost first = start(code@, ip);
    loop
        invariant
            j <= input.len(),
            run(first, input@, STEP_LIMIT as nat) == run(
                Machine { mem: code@, ip: i, used: j as nat, output: output@ },
                input@,
                fuel as nat,
            ),
        decreases fuel,
    {
        if fuel == 0 {
            return Ok(EvalResults { code, output, completed: false, run_code: i, used_input: j });
        }
        let next = if j < input.len() {
            Some(input[j])
        } else {
            None
        };
        assert(next == next_input(input@, j as nat));
        proof {
            lemma_step_input(code@, i, next);
        }
        match step(&mut code, &mut i, next) {
            Err(e) => {
                return Err(Failure { error: e, output });
            },
            Ok(Effect::Halt) => {
                return Ok(
                    EvalResults { code, output, completed: true, run_code: i, used_input: j },
                );
            },
            Ok(Effect::Suspend) => {
                return Ok(
                    EvalResults { code, output, completed: false, run_code: i, used_input: j },
                );
            },
            Ok(Effect::Consumed) => {
                j = j + 1;
            },
            Ok(Effect::Output(v)) => {
                output.push(v);
            },
            Ok(Effect::Continue) => {},
        }
        fuel = fuel - 1;
    }
}

/// Evaluates `code` from instruction `ip` on the finite `input`, without any
/// I/O, until it halts, needs an input value that is not there, or fails.
pub fn eval_from(code: Vec<i64>, ip: usize, input: Vec<i64>) -> (r: Result<EvalResults, Error>)
    ensures
        reports(r, run(start(code@, ip), input@, STEP_LIMIT as nat)),
{
    match eval_with_output(code, ip, input) {
        Ok(res) => Ok(res),
        Err(f) => Err(f.error),
    }
}

/// Evaluates `code` from its first word on the finite `input`.
pub fn eval(code: Vec<i64>, input: Vec<i64>) -> (r: Result<EvalResults, Error>)
    ensures
        reports(r, run(start(code@, 0), input@, STEP_LIMIT as nat)),
{
    eval_from(code, 0, input)
}

/// Suspension and resumption at the evaluators' step limit: when `eval` on
/// `first` suspends, `eval_from` on its memory and resume point with `rest`
/// stops, and one evaluation on `first + rest` stops within the limit too, the
/// one evaluation ends as the two together: the same memory, pointer and
/// status, the inputs taken added up, and the two outputs one after the other.
pub proof fn lemma_resume_eval(code: Seq<i64>, first: Seq<i64>, rest: Seq<i64>)
    requires
        run(start(code, 0), first, STEP_LIMIT as nat).1 is Suspended,
        !(run(
            start(
                run(start(code, 0), first, STEP_LIMIT as nat).0.mem,
                run(start(code, 0), first, STEP_LIMIT as nat).0.ip,
            ),
            rest,
            STEP_LIMIT as nat,
        ).1 is Running),
        !(run(start(code, 0), first + rest, STEP_LIMIT as nat).1 is Running),
    ensures
        ({
            let s = run(start(code, 0), first, STEP_LIMIT as nat).0;
            let t = run(start(s.mem, s.ip), rest, STEP_LIMIT as nat);
            &&& s.used == first.len()
            &&& run(start(code, 0), first + rest, STEP_LIMIT as nat) == (
                after(t.0, s.used, s.output),
                t.1,
            )
        }),
{
    let limit = STEP_LIMIT as nat;
    lemma_resume(code, 0, first, rest, limit, limit);
    lemma_run_stopped(start(code, 0), first + rest, limit, limit);
}

} // verus!
