use intcode::error::Error;
use intcode::error::Error::InvalidInput;
use intcode::parser::{parse, render};

#[test]
fn valid() {
    let input = "-2,-1,0,1,2";
    let expected = vec![-2, -1, 0, 1, 2];
    assert_eq!(expected, parse(input).unwrap());
}

#[test]
fn invalid() {
    let input = "-2,-1,zero,1,2";
    let expected = InvalidInput {
        token: "zero".to_owned(),
        position: 2,
    };
    assert_eq!(expected, parse(input).unwrap_err());
}

#[test]
fn line_ends_are_removed_from_tokens() {
    assert_eq!(vec![1, 2, 3], parse("1,2\r\n,3\n").unwrap());
}

#[test]
fn error_token_keeps_its_line_ends() {
    let expected = InvalidInput {
        token: "x\n".to_owned(),
        position: 1,
    };
    assert_eq!(expected, parse("1,x\n").unwrap_err());
}

#[test]
fn empty_text_is_one_empty_token() {
    let expected = InvalidInput {
        token: String::new(),
        position: 0,
    };
    assert_eq!(expected, parse("").unwrap_err());
}

#[test]
fn empty_token_between_commas() {
    let expected = InvalidInput {
        token: String::new(),
        position: 1,
    };
    assert_eq!(expected, parse("1,,2").unwrap_err());
}

#[test]
fn other_whitespace_is_not_removed() {
    let expected = InvalidInput {
        token: " 2".to_owned(),
        position: 1,
    };
    assert_eq!(expected, parse("1, 2").unwrap_err());
}

#[test]
fn signs_and_leading_zeros() {
    assert_eq!(vec![5, -7, 8], parse("+5,-007,08").unwrap());
}

#[test]
fn lone_signs_are_invalid() {
    assert!(matches!(parse("-"), Err(Error::InvalidInput { position: 0, .. })));
    assert!(matches!(parse("1,+"), Err(Error::InvalidInput { position: 1, .. })));
}

#[test]
fn extreme_values() {
    assert_eq!(
        vec![i64::MIN, i64::MAX],
        parse("-9223372036854775808,9223372036854775807").unwrap()
    );
}

#[test]
fn out_of_range_values_are_invalid() {
    let expected = InvalidInput {
        token: "9223372036854775808".to_owned(),
        position: 0,
    };
    assert_eq!(expected, parse("9223372036854775808").unwrap_err());
    let below = parse("0,-9223372036854775809").unwrap_err();
    assert_eq!(
        InvalidInput {
            token: "-9223372036854775809".to_owned(),
            position: 1
        },
        below
    );
}

#[test]
fn first_bad_token_is_reported() {
    let expected = InvalidInput {
        token: "a".to_owned(),
        position: 1,
    };
    assert_eq!(expected, parse("0,a,b").unwrap_err());
}

#[test]
fn render_writes_canonical_notation() {
    assert_eq!("-2,-1,0,1,2", render(&[-2, -1, 0, 1, 2]));
    assert_eq!("", render(&[]));
    assert_eq!(
        "-9223372036854775808,9223372036854775807",
        render(&[i64::MIN, i64::MAX])
    );
}

#[test]
fn load_round_trips_in_value() {
    let text = "+1,\n-02,30\r\n";
    let values = parse(text).unwrap();
    assert_eq!(vec![1, -2, 30], values);
    assert_eq!("1,-2,30", render(&values));
    assert_eq!(values, parse(&render(&values)).unwrap());
}
