use tip5_cli::digest::Digest;
use tip5_cli::error::{Error, FormatError, ParseError, UsageError};
use tip5_cli::mode::{
    concat_elements, hash_pair_mode, hash_varlen_mode, pair_echo, parse_digests, result_line, run,
    varlen_echo, Mode,
};
use twenty_first::prelude::{BFieldElement, Tip5};

fn inputs(items: &[&str]) -> Vec<String> {
    items.iter().map(|s| s.to_string()).collect()
}

fn outside_digest(values: [u64; 5]) -> twenty_first::prelude::Digest {
    twenty_first::prelude::Digest::new(values.map(BFieldElement::new))
}

#[test]
fn pair_mode_needs_exactly_two() {
    for n in [0usize, 1, 3, 4] {
        let v = vec!["(1,2,3,4,5)".to_string(); n];
        assert_eq!(run(Mode::Pair, &v).err(), Some(Error::Usage(UsageError::PairArity)));
    }
}

#[test]
fn pair_mode_arity_before_parsing() {
    let v = inputs(&["garbage"]);
    assert_eq!(hash_pair_mode(&v).err(), Some(Error::Usage(UsageError::PairArity)));
}

#[test]
fn varlen_mode_needs_at_least_two() {
    for n in [0usize, 1] {
        let v = vec!["(1,2,3,4,5)".to_string(); n];
        assert_eq!(run(Mode::Varlen, &v).err(), Some(Error::Usage(UsageError::VarlenArity)));
    }
    assert_eq!(
        hash_varlen_mode(&inputs(&["nonsense"])).err(),
        Some(Error::Usage(UsageError::VarlenArity))
    );
}

#[test]
fn pair_mode_end_to_end() {
    let v = inputs(&["(1,2,3,4,5)", "(6,7,8,9,10)"]);
    let first = run(Mode::Pair, &v).unwrap();
    let second = run(Mode::Pair, &v).unwrap();
    assert_eq!(first.echo, "Hash pair mode Digest(1,2,3,4,5), Digest(6,7,8,9,10)");
    assert!(first.result.starts_with("Result: Digest("));
    assert!(first.result.ends_with(")"));
    assert_eq!(first.result, second.result);
    let expected = Tip5::hash_pair(outside_digest([1, 2, 3, 4, 5]), outside_digest([6, 7, 8, 9, 10]));
    assert_eq!(first.result, format!("Result: Digest({})", expected));
}

#[test]
fn pair_mode_order_matters() {
    let ab = run(Mode::Pair, &inputs(&["(1,2,3,4,5)", "(6,7,8,9,10)"])).unwrap();
    let ba = run(Mode::Pair, &inputs(&["(6,7,8,9,10)", "(1,2,3,4,5)"])).unwrap();
    assert_ne!(ab.result, ba.result);
}

#[test]
fn varlen_mode_concatenates_fifteen_elements() {
    let v = inputs(&["(1,2,3,4,5)", "(6,7,8,9,10)", "(11,12,13,14,15)"]);
    let digests = parse_digests(&v).unwrap();
    let flat = concat_elements(&digests);
    assert_eq!(flat, (1..=15).collect::<Vec<u64>>());
    let report = run(Mode::Varlen, &v).unwrap();
    assert_eq!(
        report.echo,
        "Hash varlen mode Digest(1,2,3,4,5), (6,7,8,9,10), (11,12,13,14,15)"
    );
    let elements: Vec<BFieldElement> = (1..=15u64).map(BFieldElement::new).collect();
    let expected = Tip5::hash_varlen(&elements);
    assert_eq!(report.result, format!("Result: Digest({})", expected));
}

#[test]
fn varlen_of_two_differs_from_pair() {
    let v = inputs(&["(1,2,3,4,5)", "(6,7,8,9,10)"]);
    let pair = run(Mode::Pair, &v).unwrap();
    let varlen = run(Mode::Varlen, &v).unwrap();
    assert_ne!(pair.result, varlen.result);
}

#[test]
fn mode_errors_come_from_first_bad_token() {
    let v = inputs(&["(1,2,3,4,5)", "(1,2,3,4)", "(0xg1,2,3,4,5)"]);
    assert_eq!(
        run(Mode::Varlen, &v).err(),
        Some(Error::Format(FormatError::WrongElementCount))
    );
    let w = inputs(&["(1,2,3,4,5)", "(12a,2,3,4,5)"]);
    assert_eq!(run(Mode::Pair, &w).err(), Some(Error::Parse(ParseError::InvalidDigit)));
    assert_eq!(
        parse_digests(&inputs(&["(1,2,3,4,5", "(1,2)"])).err(),
        Some(Error::Format(FormatError::MissingClosingParenthesis))
    );
}

#[test]
fn echo_keeps_raw_tokens() {
    let v = inputs(&[" (1,2,3,4,5) ", "(0x6,7,8,9,10)"]);
    let report = run(Mode::Pair, &v).unwrap();
    assert_eq!(report.echo, "Hash pair mode Digest (1,2,3,4,5) , Digest(0x6,7,8,9,10)");
    let same = run(Mode::Pair, &inputs(&["(1,2,3,4,5)", "(6,7,8,9,10)"])).unwrap();
    assert_eq!(report.result, same.result);
}

#[test]
fn line_builders() {
    assert_eq!(result_line("1,2"), "Result: Digest(1,2)");
    assert_eq!(pair_echo("(a)", "(b)"), "Hash pair mode Digest(a), Digest(b)");
    assert_eq!(varlen_echo(&inputs(&["x", "y", "z"])), "Hash varlen mode Digestx, y, z");
    assert_eq!(varlen_echo(&inputs(&[])), "Hash varlen mode Digest");
}

#[test]
fn concat_keeps_order() {
    let ds = vec![Digest::new([5, 4, 3, 2, 1]), Digest::new([10, 9, 8, 7, 6])];
    assert_eq!(concat_elements(&ds), vec![5, 4, 3, 2, 1, 10, 9, 8, 7, 6]);
    assert_eq!(concat_elements(&Vec::new()), Vec::<u64>::new());
}

#[test]
fn error_messages() {
    assert_eq!(
        Error::Usage(UsageError::PairArity).message(),
        "pair mode requires exactly 2 digests"
    );
    assert_eq!(
        Error::Usage(UsageError::VarlenArity).message(),
        "varlen mode requires at least 2 digests"
    );
    assert_eq!(
        Error::Format(FormatError::MissingOpeningParenthesis).message(),
        "Missing opening parenthesis"
    );
    assert_eq!(
        Error::Format(FormatError::MissingClosingParenthesis).message(),
        "Missing closing parenthesis"
    );
    assert_eq!(
        Error::Format(FormatError::WrongElementCount).message(),
        "Each digest must contain exactly 5 numbers"
    );
    assert_eq!(Error::Parse(ParseError::InvalidDigit).message(), "invalid digit found in string");
}
