use intcode::error::Error;

#[test]
fn describes_each_fault() {
    let cases = vec![
        (
            Error::InvalidInput {
                token: "zero".to_owned(),
                position: 2,
            },
            "Invalid token \"zero\" at position 2",
        ),
        (
            Error::InvalidOpcode {
                opcode: 42,
                position: 1,
            },
            "Invalid opcode \"42\" at position 1",
        ),
        (
            Error::MissingParameter {
                parameter: 1,
                opcode: 2,
                position: 3,
            },
            "Missing parameter 1 for opcode \"2\" at position 3",
        ),
        (
            Error::NegativePositionalParameter {
                value: -1,
                parameter: 1,
                opcode: 5,
                position: 3,
            },
            "Negative value -1 for positional parameter 1 for opcode \"5\" at position 3",
        ),
        (
            Error::InvalidParameterMode {
                mode: 2,
                parameter: 0,
                opcode: 1,
                position: 2,
            },
            "Invalid parameter mode \"2\" for parameter 0 of opcode \"1\" at position 2",
        ),
        (
            Error::PositionOutOfRange {
                index: 100,
                parameter: 0,
                opcode: 1,
                position: 4,
            },
            "Position 100 past the end of memory for parameter 0 of opcode \"1\" at position 4",
        ),
    ];
    for (error, text) in cases {
        assert_eq!(text, error.describe());
    }
}

#[test]
fn equality_compares_fields() {
    let a = Error::InvalidInput {
        token: "x".to_owned(),
        position: 0,
    };
    let b = Error::InvalidInput {
        token: "y".to_owned(),
        position: 0,
    };
    assert_ne!(a, b);
    assert_ne!(
        Error::InvalidOpcode {
            opcode: 1,
            position: 0
        },
        Error::InvalidOpcode {
            opcode: 1,
            position: 1
        }
    );
}
