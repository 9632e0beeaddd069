use intcode::error::Error;
use intcode::interpreter::{
    eval, eval_from, jump_if_false, jump_if_true, step, Effect, Parameter,
};

#[test]
fn add_in_position_mode() {
    let result = eval(vec![1, 0, 0, 0, 99], vec![]).unwrap();
    assert_eq!(vec![2, 0, 0, 0, 99], result.code);
    assert!(result.output.is_empty());
    assert!(result.completed);
    assert_eq!(0, result.used_input);
}

#[test]
fn multiply_in_position_mode() {
    let result = eval(vec![2, 4, 4, 5, 99, 0], vec![]).unwrap();
    assert_eq!(vec![2, 4, 4, 5, 99, 9801], result.code);
}

#[test]
fn echo_input() {
    let result = eval(vec![3, 0, 4, 0, 99], vec![7]).unwrap();
    assert_eq!(vec![7], result.output);
    assert_eq!(1, result.used_input);
    assert!(result.completed);
}

#[test]
fn immediate_mode_arithmetic() {
    let result = eval(vec![1101, 100, -1, 4, 0], vec![]).unwrap();
    assert_eq!(99, result.code[4]);
    assert!(result.completed);
    assert_eq!(5, result.run_code);
}

#[test]
fn multiply_with_mixed_modes() {
    let result = eval(vec![1002, 4, 3, 4, 33], vec![]).unwrap();
    assert_eq!(vec![1002, 4, 3, 4, 99], result.code);
}

#[test]
fn equal_to_eight_in_position_mode() {
    let program = vec![3, 9, 8, 9, 10, 9, 4, 9, 99, -1, 8];
    assert_eq!(vec![1], eval(program.clone(), vec![8]).unwrap().output);
    assert_eq!(vec![0], eval(program, vec![7]).unwrap().output);
}

#[test]
fn less_than_eight_in_immediate_mode() {
    let program = vec![3, 3, 1107, -1, 8, 3, 4, 3, 99];
    assert_eq!(vec![1], eval(program.clone(), vec![7]).unwrap().output);
    assert_eq!(vec![0], eval(program, vec![8]).unwrap().output);
}

#[test]
fn jumps_test_for_zero() {
    let position = vec![3, 12, 6, 12, 15, 1, 13, 14, 13, 4, 13, 99, -1, 0, 1, 9];
    assert_eq!(vec![0], eval(position.clone(), vec![0]).unwrap().output);
    assert_eq!(vec![1], eval(position, vec![5]).unwrap().output);
    let immediate = vec![3, 3, 1105, -1, 9, 1101, 0, 0, 12, 4, 12, 99, 1];
    assert_eq!(vec![0], eval(immediate.clone(), vec![0]).unwrap().output);
    assert_eq!(vec![1], eval(immediate, vec![-3]).unwrap().output);
}

#[test]
fn compare_with_eight() {
    let program = vec![
        3, 21, 1008, 21, 8, 20, 1005, 20, 22, 107, 8, 21, 20, 1006, 20, 31, 1106, 0, 36, 98, 0,
        0, 1002, 21, 125, 20, 4, 20, 1105, 1, 46, 104, 999, 1105, 1, 46, 1101, 1000, 1, 20, 4,
        20, 1105, 1, 46, 98, 99,
    ];
    assert_eq!(vec![999], eval(program.clone(), vec![7]).unwrap().output);
    assert_eq!(vec![1000], eval(program.clone(), vec![8]).unwrap().output);
    assert_eq!(vec![1001], eval(program, vec![9]).unwrap().output);
}

#[test]
fn running_off_the_end_completes() {
    let result = eval(vec![1101, 1, 1, 0], vec![]).unwrap();
    assert!(result.completed);
    assert_eq!(vec![2, 1, 1, 0], result.code);
    assert_eq!(4, result.run_code);
}

#[test]
fn empty_program_completes() {
    let result = eval(vec![], vec![]).unwrap();
    assert!(result.completed);
    assert_eq!(0, result.run_code);
}

#[test]
fn sums_and_products_wrap() {
    let result = eval(vec![1101, i64::MAX, 1, 0, 1102, i64::MIN, -1, 4, 99], vec![]).unwrap();
    assert_eq!(i64::MIN, result.code[0]);
    assert_eq!(i64::MIN, result.code[4]);
}

#[test]
fn suspends_when_input_runs_out() {
    let program = vec![3, 0, 4, 0, 3, 1, 4, 1, 99];
    let result = eval(program, vec![5]).unwrap();
    assert!(!result.completed);
    assert_eq!(vec![5], result.output);
    assert_eq!(1, result.used_input);
    assert_eq!(4, result.run_code);
    assert_eq!(vec![5, 0, 4, 0, 3, 1, 4, 1, 99], result.code);
}

#[test]
fn resuming_matches_one_run() {
    let program = vec![3, 0, 4, 0, 3, 1, 4, 1, 1, 0, 1, 2, 4, 2, 99];
    let whole = eval(program.clone(), vec![5, 6]).unwrap();
    let first = eval(program, vec![5]).unwrap();
    assert!(!first.completed);
    assert_eq!(1, first.used_input);
    let second = eval_from(first.code, first.run_code, vec![6]).unwrap();
    assert!(second.completed);
    let mut joined = first.output.clone();
    joined.extend(second.output.iter().copied());
    assert_eq!(vec![5, 6, 11], whole.output);
    assert_eq!(whole.output, joined);
    assert_eq!(whole.code, second.code);
    assert_eq!(whole.used_input, first.used_input + second.used_input);
}

#[test]
fn no_input_suspends_at_first_input() {
    let result = eval(vec![1101, 2, 3, 0, 3, 0, 99], vec![]).unwrap();
    assert!(!result.completed);
    assert_eq!(4, result.run_code);
    assert_eq!(0, result.used_input);
    assert_eq!(5, result.code[0]);
}

#[test]
fn negative_jump_target_in_position_mode() {
    let result = eval(vec![5, 0, -1, 99], vec![]);
    assert_eq!(
        Error::NegativePositionalParameter {
            value: -1,
            parameter: 1,
            opcode: 5,
            position: 3
        },
        result.unwrap_err()
    );
}

#[test]
fn negative_jump_target_value() {
    let result = eval(vec![1105, 1, -1, 99], vec![]);
    assert_eq!(
        Error::NegativePositionalParameter {
            value: -1,
            parameter: 1,
            opcode: 5,
            position: 3
        },
        result.unwrap_err()
    );
    let result = eval(vec![1106, 0, -4, 99], vec![]);
    assert_eq!(
        Error::NegativePositionalParameter {
            value: -4,
            parameter: 1,
            opcode: 6,
            position: 3
        },
        result.unwrap_err()
    );
}

#[test]
fn jump_not_taken_ignores_target() {
    let result = eval(vec![1105, 0, -1, 99], vec![]).unwrap();
    assert!(result.completed);
}

#[test]
fn unknown_opcode() {
    assert_eq!(
        Error::InvalidOpcode {
            opcode: 42,
            position: 1
        },
        eval(vec![42], vec![]).unwrap_err()
    );
    assert_eq!(
        Error::InvalidOpcode {
            opcode: -1,
            position: 1
        },
        eval(vec![-1], vec![]).unwrap_err()
    );
}

#[test]
fn missing_parameter() {
    assert_eq!(
        Error::MissingParameter {
            parameter: 1,
            opcode: 1,
            position: 2
        },
        eval(vec![1, 0], vec![]).unwrap_err()
    );
}

#[test]
fn invalid_parameter_mode() {
    assert_eq!(
        Error::InvalidParameterMode {
            mode: 2,
            parameter: 0,
            opcode: 1,
            position: 2
        },
        eval(vec![201, 0, 0, 0], vec![]).unwrap_err()
    );
}

#[test]
fn immediate_write_target() {
    assert_eq!(
        Error::InvalidParameterMode {
            mode: 1,
            parameter: 2,
            opcode: 1,
            position: 4
        },
        eval(vec![10001, 0, 0, 0], vec![]).unwrap_err()
    );
    assert_eq!(
        Error::InvalidParameterMode {
            mode: 1,
            parameter: 0,
            opcode: 3,
            position: 2
        },
        eval(vec![103, 0], vec![1]).unwrap_err()
    );
}

#[test]
fn negative_position_operand() {
    assert_eq!(
        Error::NegativePositionalParameter {
            value: -3,
            parameter: 0,
            opcode: 4,
            position: 2
        },
        eval(vec![4, -3, 99], vec![]).unwrap_err()
    );
}

#[test]
fn position_past_memory() {
    assert_eq!(
        Error::PositionOutOfRange {
            index: 100,
            parameter: 0,
            opcode: 1,
            position: 4
        },
        eval(vec![1, 100, 0, 0, 99], vec![]).unwrap_err()
    );
    assert_eq!(
        Error::PositionOutOfRange {
            index: 9,
            parameter: 0,
            opcode: 3,
            position: 2
        },
        eval(vec![3, 9, 99], vec![1]).unwrap_err()
    );
}

#[test]
fn step_reports_effects() {
    let mut code = vec![3, 0, 4, 0, 99];
    let mut ip: usize = 0;
    assert_eq!(Effect::Suspend, step(&mut code, &mut ip, None).unwrap());
    assert_eq!(0, ip);
    assert_eq!(Effect::Consumed, step(&mut code, &mut ip, Some(12)).unwrap());
    assert_eq!(2, ip);
    assert_eq!(12, code[0]);
    assert_eq!(Effect::Output(12), step(&mut code, &mut ip, Some(1)).unwrap());
    assert_eq!(4, ip);
    assert_eq!(Effect::Halt, step(&mut code, &mut ip, None).unwrap());
}

#[test]
fn eval_from_starts_at_given_instruction() {
    let result = eval_from(vec![4, 0, 104, 8, 99], 2, vec![]).unwrap();
    assert_eq!(vec![8], result.output);
    assert!(result.completed);
}

#[test]
fn failure_keeps_output_before_it() {
    let failure = intcode::interpreter::eval_with_output(vec![104, 1, 104, 2, 42], 0, vec![])
        .unwrap_err();
    assert_eq!(vec![1, 2], failure.output);
    assert_eq!(
        Error::InvalidOpcode {
            opcode: 42,
            position: 5
        },
        failure.error
    );
    let result = intcode::interpreter::eval_with_output(vec![3, 0, 4, 0, 99], 0, vec![4]).unwrap();
    assert_eq!(vec![4], result.output);
}

#[test]
fn operand_cursor_after_failures() {
    let code = vec![-5, 7];
    let mut i: usize = 2;
    assert!(Parameter::from_code(&code, &mut i, 0, 0, 1).is_err());
    assert_eq!(2, i);
    i = 0;
    assert!(Parameter::from_code(&code, &mut i, 0, 0, 1).is_err());
    assert_eq!(1, i);
    i = 1;
    assert!(Parameter::from_code(&code, &mut i, 3, 0, 1).is_err());
    assert_eq!(2, i);
    i = 1;
    assert!(Parameter::positional_from_code(&code, &mut i, 1, 2, 1).is_err());
    assert_eq!(2, i);
    let mut j: usize = 0;
    assert!(Parameter::arithmetic(&vec![0, 0, -1], &mut j, 1, 1).is_err());
    assert_eq!(3, j);
}

#[test]
fn failed_jump_leaves_pointer() {
    let code = vec![0];
    let mut i: usize = 7;
    assert!(jump_if_true(&code, &mut i, Parameter::Immediate(1), Parameter::Immediate(-2)).is_err());
    assert_eq!(7, i);
    assert!(jump_if_false(&code, &mut i, Parameter::Immediate(0), Parameter::Immediate(-2)).is_err());
    assert_eq!(7, i);
    assert!(jump_if_false(&code, &mut i, Parameter::Immediate(0), Parameter::Immediate(3)).is_ok());
    assert_eq!(3, i);
}
