use intcode::transpiler::{transpile, transpile_code, transpile_iterator, transpile_output, RUNTIME};

#[test]
fn output() {
    let output = vec![1, 2, 3];
    let expected = "println!(\"1\\n2\\n3\");".to_owned();
    assert_eq!(expected, transpile_output(&output));
}

#[test]
fn code() {
    let code = vec![1, 2, 3];
    let expected = "let mut code: [i64; 3] = [1, 2, 3];".to_owned();
    assert_eq!(expected, transpile_code(&code));
}

#[test]
fn iterator() {
    let i = 0;
    let expected = "let i: usize = 0;".to_owned();
    assert_eq!(expected, transpile_iterator(i));
}

#[test]
fn negative_values_in_statements() {
    assert_eq!("println!(\"-5\\n0\");", transpile_output(&[-5, 0]));
    assert_eq!("let mut code: [i64; 0] = [];", transpile_code(&[]));
    assert_eq!("let i: usize = 1234;", transpile_iterator(1234));
}

#[test]
fn completed_program_only_prints() {
    let text = transpile(vec![104, 7, 104, -8, 99], vec![]).unwrap();
    assert_eq!("fn main() {\n    println!(\"7\\n-8\");\n}\n", text);
    assert!(!text.contains("let mut code"));
}

#[test]
fn completed_program_without_output() {
    let text = transpile(vec![1, 0, 0, 0, 99], vec![]).unwrap();
    assert_eq!("fn main() {\n}\n", text);
}

#[test]
fn suspended_program_resumes() {
    let text = transpile(vec![3, 0, 4, 0, 3, 1, 99], vec![9]).unwrap();
    let driver = "\nfn main() -> Result<(), Failure> {\n    println!(\"9\");\n    let mut code: [i64; 7] = [9, 0, 4, 0, 3, 1, 99];\n    let i: usize = 4;\n    run(&mut code, i).map_err(Failure)\n}\n";
    assert_eq!(format!("{}{}", RUNTIME, driver), text);
}

#[test]
fn suspended_program_without_output() {
    let text = transpile(vec![3, 0, 99], vec![]).unwrap();
    assert!(text.starts_with(RUNTIME));
    assert!(text.ends_with(
        "\nfn main() -> Result<(), Failure> {\n    let mut code: [i64; 3] = [3, 0, 99];\n    let i: usize = 0;\n    run(&mut code, i).map_err(Failure)\n}\n"
    ));
}

#[test]
fn transpile_passes_errors_on() {
    assert!(matches!(
        transpile(vec![42], vec![]),
        Err(intcode::error::Error::InvalidOpcode {
            opcode: 42,
            position: 1
        })
    ));
}
