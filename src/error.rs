//! The faults that loading or running a program can meet.
use vstd::prelude::*;
use vstd::string::*;

use crate::text::{decimal, push_decimal, push_digits};

verus! {

/// Every fault names the place where it was found. `position` counts tokens
/// for `InvalidInput` and memory cells for the others; `parameter` is the
/// zero-based operand index within the instruction.
#[derive(Debug)]
pub enum Error {
    InvalidInput { token: String, position: usize },
    InvalidOpcode { opcode: i64, position: usize },
    MissingParameter { parameter: u8, opcode: i64, position: usize },
    NegativePositionalParameter { value: i64, parameter: u8, opcode: i64, position: usize },
    InvalidParameterMode { mode: i64, parameter: u8, opcode: i64, position: usize },
    /// A position-mode operand names a cell past the end of memory.
    PositionOutOfRange { index: usize, parameter: u8, opcode: i64, position: usize },
}

impl PartialEq for Error {
    fn eq(&self, other: &Error) -> (r: bool)
        ensures
            r == self.same(*other),
    {
        match (self, other) {
            (
                Error::InvalidInput { token: t1, position: p1 },
                Error::InvalidInput { token: t2, position: p2 },
            ) => *t1 == *t2 && p1 == p2,
            (
                Error::InvalidOpcode { opcode: o1, position: p1 },
                Error::InvalidOpcode { opcode: o2, position: p2 },
            ) => o1 == o2 && p1 == p2,
            (
                Error::MissingParameter { parameter: n1, opcode: o1, position: p1 },
                Error::MissingParameter { parameter: n2, opcode: o2, position: p2 },
            ) => n1 == n2 && o1 == o2 && p1 == p2,
            (
                Error::NegativePositionalParameter { value: v1, parameter: n1, opcode: o1, position: p1 },
                Error::NegativePositionalParameter { value: v2, parameter: n2, opcode: o2, position: p2 },
            ) => v1 == v2 && n1 == n2 && o1 == o2 && p1 == p2,
            (
                Error::InvalidParameterMode { mode: m1, parameter: n1, opcode: o1, position: p1 },
                Error::InvalidParameterMode { mode: m2, parameter: n2, opcode: o2, position: p2 },
            ) => m1 == m2 && n1 == n2 && o1 == o2 && p1 == p2,
            (
                Error::PositionOutOfRange { index: i1, parameter: n1, opcode: o1, position: p1 },
                Error::PositionOutOfRange { index: i2, parameter: n2, opcode: o2, position: p2 },
            ) => i1 == i2 && n1 == n2 && o1 == o2 && p1 == p2,
            _ => false,
        }
    }
}

impl vstd::std_specs::cmp::PartialEqSpecImpl for Error {
    open spec fn obeys_eq_spec() -> bool {
        true
    }

    open spec fn eq_spec(&self, other: &Error) -> bool {
        self.same(*other)
    }
}

impl Error {
    /// Equality of the variants and of their fields, tokens compared by text.
    pub open spec fn same(self, other: Error) -> bool {
        match (self, other) {
            (
                Error::InvalidInput { token: t1, position: p1 },
                Error::InvalidInput { token: t2, position: p2 },
            ) => t1@ == t2@ && p1 == p2,
            (Error::InvalidInput { .. }, _) => false,
            (_, Error::InvalidInput { .. }) => false,
            _ => self == other,
        }
    }

    /// The one-line description of the fault.
    pub open spec fn message(self) -> Seq<char> {
        match self {
            Error::InvalidInput { token, position } => "Invalid token \""@ + token@
                + "\" at position "@ + decimal(position as int),
            Error::InvalidOpcode { opcode, position } => "Invalid opcode \""@ + decimal(
                opcode as int,
            ) + "\" at position "@ + decimal(position as int),
            Error::MissingParameter { parameter, opcode, position } => "Missing parameter "@
                + decimal(parameter as int) + " for opcode \""@ + decimal(opcode as int)
                + "\" at position "@ + decimal(position as int),
            Error::NegativePositionalParameter { value, parameter, opcode, position } =>
                "Negative value "@ + decimal(value as int) + " for positional parameter "@
                + decimal(parameter as int) + " for opcode \""@ + decimal(opcode as int)
                + "\" at position "@ + decimal(position as int),
            Error::InvalidParameterMode { mode, parameter, opcode, position } =>
                "Invalid parameter mode \""@ + decimal(mode as int) + "\" for parameter "@
                + decimal(parameter as int) + " of opcode \""@ + decimal(opcode as int)
                + "\" at position "@ + decimal(position as int),
            Error::PositionOutOfRange { index, parameter, opcode, position } =>
                "Position "@ + decimal(index as int) + " past the end of memory for parameter "@
                + decimal(parameter as int) + " of opcode \""@ + decimal(opcode as int)
                + "\" at position "@ + decimal(position as int),
        }
    }

    /// The one-line description of the fault, as shown to a user.
    pub fn describe(&self) -> (r: String)
        ensures
            r@ == self.message(),
    {
        let mut r = String::new();
        match self {
            Error::InvalidInput { token, position } => {
                r.append("Invalid token \"");
                r.append(token.as_str());
                r.append("\" at position ");
                push_digits(&mut r, *position as u64);
            },
            Error::InvalidOpcode { opcode, position } => {
                r.append("Invalid opcode \"");
                push_decimal(&mut r, *opcode);
                r.append("\" at position ");
                push_digits(&mut r, *position as u64);
            },
            Error::MissingParameter { parameter, opcode, position } => {
                r.append("Missing parameter ");
                push_decimal(&mut r, *parameter as i64);
                r.append(" for opcode \"");
                push_decimal(&mut r, *opcode);
                r.append("\" at position ");
                push_digits(&mut r, *position as u64);
            },
            Error::NegativePositionalParameter { value, parameter, opcode, position } => {
                r.append("Negative value ");
                push_decimal(&mut r, *value);
                r.append(" for positional parameter ");
                push_decimal(&mut r, *parameter as i64);
                r.append(" for opcode \"");
                push_decimal(&mut r, *opcode);
                r.append("\" at position ");
                push_digits(&mut r, *position as u64);
            },
            Error::InvalidParameterMode { mode, parameter, opcode, position } => {
                r.append("Invalid parameter mode \"");
                push_decimal(&mut r, *mode);
                r.append("\" for parameter ");
                push_decimal(&mut r, *parameter as i64);
                r.append(" of opcode \"");
                push_decimal(&mut r, *opcode);
                r.append("\" at position ");
                push_digits(&mut r, *position as u64);
            },
            Error::PositionOutOfRange { index, parameter, opcode, position } => {
                r.append("Position ");
                push_digits(&mut r, *index as u64);
                r.append(" past the end of memory for parameter ");
                push_decimal(&mut r, *parameter as i64);
                r.append(" of opcode \"");
                push_decimal(&mut r, *opcode);
                r.append("\" at position ");
                push_digits(&mut r, *position as u64);
            },
        }
        r
    }
}

} // verus!
