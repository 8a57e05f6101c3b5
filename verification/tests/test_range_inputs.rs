use mlh::archiver::range_inputs::{parse_sequence, RangeParseError};

#[test]
fn test_range_whitespace_and_segments() {
    let seq = parse_sequence(" 2 - 4 , 7 ").unwrap();
    assert_eq!(seq.to_vec(), vec![2, 3, 4, 7]);
    assert_eq!(seq.segments(), vec![(2, 4), (7, 7)]);
}

#[test]
fn test_range_errors() {
    assert!(matches!(parse_sequence(""), Err(RangeParseError::EmptyItem)));
    assert!(matches!(parse_sequence("1,,2"), Err(RangeParseError::EmptyItem)));
    assert!(matches!(parse_sequence("1,"), Err(RangeParseError::EmptyItem)));
    assert!(matches!(parse_sequence("5-3"), Err(RangeParseError::DescendingRange)));
    assert!(matches!(parse_sequence("1-x"), Err(RangeParseError::InvalidNumber)));
    assert!(matches!(parse_sequence("-3"), Err(RangeParseError::InvalidNumber)));
    assert!(matches!(parse_sequence("99999999999999999999999"), Err(RangeParseError::InvalidNumber)));
}

#[test]
fn test_range_concatenation_example() {
    let a = parse_sequence("1-3").unwrap().to_vec();
    let b = parse_sequence("9,4").unwrap().to_vec();
    let ab = parse_sequence("1-3,9,4").unwrap().to_vec();
    let mut joined = a.clone();
    joined.extend(b);
    assert_eq!(ab, joined);
    assert_eq!(parse_sequence("+5").unwrap().to_vec(), vec![5]);
}
